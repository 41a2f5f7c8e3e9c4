//! Planning a refresh of a stored reference list (summits or parks) from a
//! list file: which listed references are written and which stored ones are
//! deleted. A reference is compared by a digest of its fields, so one that
//! is stored unchanged is not written again.
use vstd::prelude::*;
use crate::calendar::day_number_in_range;
use crate::text::{occurs_at, strs};

verus! {

/// A reference of a list file: its code, and its digest while it is valid
/// (`None`: the file lists it as no longer valid).
#[derive(Debug)]
pub struct ListedRef {
    pub code: String,
    pub digest: Option<u64>,
}

/// A stored reference: its code and digest.
#[derive(Debug)]
pub struct StoredRef {
    pub code: String,
    pub digest: u64,
}

/// The digest that the list gives a code: that of its last valid entry.
pub open spec fn listed_digest(listed: Seq<ListedRef>, code: Seq<char>) -> Option<u64>
    decreases listed.len(),
{
    if listed.len() == 0 {
        None
    } else if listed.last().code@ == code && listed.last().digest is Some {
        listed.last().digest
    } else {
        listed_digest(listed.drop_last(), code)
    }
}

/// Whether the list has an entry that gives a code as no longer valid.
pub open spec fn listed_invalid(listed: Seq<ListedRef>, code: Seq<char>) -> bool {
    exists|i: int| 0 <= i < listed.len() && (#[trigger] listed[i]).code@ == code && listed[i].digest is None
}

/// Whether a code is stored with the digest that the list gives it.
pub open spec fn stored_same(listed: Seq<ListedRef>, stored: Seq<StoredRef>, code: Seq<char>) -> bool {
    exists|k: int| 0 <= k < stored.len() && (#[trigger] stored[k]).code@ == code
        && listed_digest(listed, code) == Some(stored[k].digest)
}

/// Whether a code is written: the list gives it a digest, and it is not
/// stored with that digest.
pub open spec fn to_write(listed: Seq<ListedRef>, stored: Seq<StoredRef>, code: Seq<char>) -> bool {
    listed_digest(listed, code) is Some && !stored_same(listed, stored, code)
}

/// The stored references that are deleted: those that the list gives only
/// as no longer valid. Codes that it does not name stay.
pub open spec fn to_delete(listed: Seq<ListedRef>) -> spec_fn(StoredRef) -> bool {
    |s: StoredRef| listed_digest(listed, s.code@) is None && listed_invalid(listed, s.code@)
}

/// The codes of stored references.
pub open spec fn stored_codes(stored: Seq<StoredRef>) -> Seq<Seq<char>> {
    stored.map_values(|s: StoredRef| s.code@)
}

/// The digest that the list gives a code (see `listed_digest`).
pub fn listed_digest_of(listed: &Vec<ListedRef>, code: &str) -> (r: Option<u64>)
    ensures
        r == listed_digest(listed@, code@),
{
    let mut i: usize = listed.len();
    assert(listed@.take(i as int) =~= listed@);
    while i > 0
        invariant
            i <= listed@.len(),
            listed_digest(listed@, code@) == listed_digest(listed@.take(i as int), code@),
        decreases i,
    {
        let ghost t = listed@.take(i as int);
        assert(t.last() == listed@[i - 1]);
        assert(t.drop_last() =~= listed@.take(i - 1));
        let e = &listed[i - 1];
        if e.digest.is_some() && crate::text::str_eq(e.code.as_str(), code) {
            return e.digest;
        }
        i = i - 1;
    }
    None
}

/// Whether the list gives a code as no longer valid.
fn is_listed_invalid(listed: &Vec<ListedRef>, code: &str) -> (r: bool)
    ensures
        r == listed_invalid(listed@, code@),
{
    let mut i: usize = 0;
    while i < listed.len()
        invariant
            i <= listed@.len(),
            forall|j: int| 0 <= j < i ==> !((#[trigger] listed@[j]).code@ == code@ && listed@[j].digest is None),
        decreases listed.len() - i,
    {
        if listed[i].digest.is_none() && crate::text::str_eq(listed[i].code.as_str(), code) {
            assert(listed@[i as int].code@ == code@);
            return true;
        }
        i = i + 1;
    }
    false
}

/// Whether a code is stored with digest `digest`.
fn is_stored_with(stored: &Vec<StoredRef>, code: &str, digest: u64) -> (r: bool)
    ensures
        r == exists|k: int| 0 <= k < stored@.len() && (#[trigger] stored@[k]).code@ == code@ && stored@[k].digest == digest,
{
    let mut k: usize = 0;
    while k < stored.len()
        invariant
            k <= stored@.len(),
            forall|j: int| 0 <= j < k ==> !((#[trigger] stored@[j]).code@ == code@ && stored@[j].digest == digest),
        decreases stored.len() - k,
    {
        if stored[k].digest == digest && crate::text::str_eq(stored[k].code.as_str(), code) {
            assert(stored@[k as int].code@ == code@);
            return true;
        }
        k = k + 1;
    }
    false
}

/// The plan of a refresh: for each listed entry, in order, whether it is
/// written (see `to_write`; an entry is written when its code is, whatever
/// its own validity); and the codes of the stored references to delete, in
/// stored order (see `to_delete`).
pub fn plan_refresh(listed: &Vec<ListedRef>, stored: &Vec<StoredRef>) -> (r: (Vec<bool>, Vec<String>))
    ensures
        r.0@.len() == listed@.len(),
        forall|i: int| 0 <= i < listed@.len() ==> r.0@[i] == to_write(listed@, stored@, (#[trigger] listed@[i]).code@),
        strs(r.1@) == stored_codes(stored@.filter(to_delete(listed@))),
{
    let mut write: Vec<bool> = Vec::new();
    let mut i: usize = 0;
    while i < listed.len()
        invariant
            i <= listed@.len(),
            write@.len() == i,
            forall|j: int| 0 <= j < i ==> write@[j] == to_write(listed@, stored@, (#[trigger] listed@[j]).code@),
        decreases listed.len() - i,
    {
        let code = listed[i].code.as_str();
        let w = match listed_digest_of(listed, code) {
            Some(d) => !is_stored_with(stored, code, d),
            None => false,
        };
        write.push(w);
        i = i + 1;
    }
    let ghost pred = to_delete(listed@);
    let mut gone: Vec<String> = Vec::new();
    let mut k: usize = 0;
    proof {
        reveal(Seq::filter);
        assert(stored@.take(0) =~= Seq::<StoredRef>::empty());
    }
    while k < stored.len()
        invariant
            k <= stored@.len(),
            pred == to_delete(listed@),
            strs(gone@) == stored_codes(stored@.take(k as int).filter(pred)),
        decreases stored.len() - k,
    {
        let s = &stored[k];
        let del = listed_digest_of(listed, s.code.as_str()).is_none() && is_listed_invalid(listed, s.code.as_str());
        let ghost t0 = stored@.take(k as int);
        proof {
            assert(stored@.take(k + 1) =~= t0.push(*s));
            t0.lemma_filter_push(*s, pred);
        }
        if del {
            let ghost before = strs(gone@);
            gone.push(crate::text::copy_str(s.code.as_str()));
            assert(strs(gone@) =~= before.push(s.code@));
            assert(stored_codes(t0.filter(pred).push(*s)) =~= stored_codes(t0.filter(pred)).push(s.code@));
        }
        k = k + 1;
    }
    assert(stored@.take(stored@.len() as int) =~= stored@);
    (write, gone)
}

/// Whether a stored list holds each code that a list gives a digest, with
/// that digest: what a refresh from the list leaves stored.
pub open spec fn stored_as_listed(listed: Seq<ListedRef>, stored: Seq<StoredRef>) -> bool {
    forall|i: int| 0 <= i < listed.len() && (#[trigger] listed[i]).digest is Some ==>
        exists|k: int| 0 <= k < stored.len() && (#[trigger] stored[k]).code@ == listed[i].code@
            && stored[k].digest == listed_digest(listed, listed[i].code@)->0
}

/// Once the stored list holds what a list gives, a refresh from the same
/// list writes nothing.
pub proof fn lemma_refresh_settles(listed: Seq<ListedRef>, stored: Seq<StoredRef>)
    requires
        stored_as_listed(listed, stored),
    ensures
        forall|i: int| 0 <= i < listed.len() ==> !to_write(listed, stored, (#[trigger] listed[i]).code@),
{
    assert forall|i: int| 0 <= i < listed.len() implies !to_write(listed, stored, (#[trigger] listed[i]).code@) by {
        let code = listed[i].code@;
        lemma_listed_digest_some(listed, code);
        if listed_digest(listed, code) is Some {
            let j = choose|j: int| 0 <= j < listed.len() && listed[j].code@ == code && listed[j].digest is Some;
            assert(listed[j].digest is Some);
            let k = choose|k: int| 0 <= k < stored.len() && (#[trigger] stored[k]).code@ == listed[j].code@
                && stored[k].digest == listed_digest(listed, listed[j].code@)->0;
            assert(stored_same(listed, stored, code));
        }
    }
}

/// A code that the list gives a digest has a valid entry.
proof fn lemma_listed_digest_some(listed: Seq<ListedRef>, code: Seq<char>)
    ensures
        listed_digest(listed, code) is Some ==> exists|j: int| 0 <= j < listed.len() && listed[j].code@ == code && listed[j].digest is Some,
    decreases listed.len(),
{
    if listed.len() > 0 {
        let last = listed.len() - 1;
        if !(listed.last().code@ == code && listed.last().digest is Some) {
            lemma_listed_digest_some(listed.drop_last(), code);
            if listed_digest(listed, code) is Some {
                let j = choose|j: int| 0 <= j < listed.drop_last().len() && listed.drop_last()[j].code@ == code && listed.drop_last()[j].digest is Some;
                assert(listed[j] == listed.drop_last()[j]);
            }
        } else {
            assert(listed[last] == listed.last());
        }
    }
}

/// Whether a POTA park list row is left out of a refresh: its reference
/// starts with "JP-".
pub fn is_skipped_park_code(reference: &str) -> (r: bool)
    ensures
        r == occurs_at(reference@, "JP-"@, 0),
{
    let s = crate::text::chars_of(reference);
    let p = crate::text::chars_of("JP-");
    crate::text::starts_with(s.as_slice(), p.as_slice())
}

/// Whether a summit is valid on a day: between the first and last days of
/// its validity, both included (day numbers).
pub fn is_valid_summit_on(valid_from: i32, valid_to: i32, today: i32) -> (r: bool)
    ensures
        r == (valid_from <= today <= valid_to),
{
    valid_from <= today && today <= valid_to
}

/// Whether a summit is valid today, in the machine's time zone (see
/// `is_valid_summit_on`): valid on some day in chrono's range, the day that
/// the clock gives.
pub fn is_valid_summit(valid_from: i32, valid_to: i32) -> (r: bool)
    ensures
        exists|today: int| day_number_in_range(today) && r == (valid_from <= today <= valid_to),
{
    let today = crate::calendar::local_today();
    let r = is_valid_summit_on(valid_from, valid_to, today);
    assert(day_number_in_range(today as int) && r == (valid_from <= today <= valid_to));
    r
}

} // verus!
