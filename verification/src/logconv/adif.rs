//! The ADIF (Amateur Data Interchange Format) reader: fields written as
//! `<NAME:length>value`, records ended by `<EOR>`, a header ended by `<EOH>`.
use vstd::prelude::*;
use crate::logconv::types::QsoRecord;
use crate::text::{from_utf8, str_upper, sub_bytes, utf8_text};

verus! {

/// The fields of an ADIF record by upper-case name; a later field of the
/// same name replaces an earlier one.
#[derive(Debug, Clone)]
pub struct AdifFields {
    entries: Vec<(String, String)>,
}

/// The map that a sequence of fields read in order gives.
pub open spec fn fields_map(e: Seq<(Seq<char>, Seq<char>)>) -> Map<Seq<char>, Seq<char>>
    decreases e.len(),
{
    if e.len() == 0 {
        Map::empty()
    } else {
        fields_map(e.drop_last()).insert(e.last().0, e.last().1)
    }
}

/// The plain values of field entries.
pub open spec fn entry_views(e: Seq<(String, String)>) -> Seq<(Seq<char>, Seq<char>)> {
    e.map_values(|p: (String, String)| (p.0@, p.1@))
}

impl View for AdifFields {
    type V = Map<Seq<char>, Seq<char>>;

    closed spec fn view(&self) -> Map<Seq<char>, Seq<char>> {
        fields_map(entry_views(self.entries@))
    }
}

impl AdifFields {
    /// The fields read, in order.
    pub closed spec fn entries_view(&self) -> Seq<(Seq<char>, Seq<char>)> {
        entry_views(self.entries@)
    }

    /// The map of the fields is that of the fields read: for each name,
    /// the value read last.
    pub proof fn lemma_view(&self)
        ensures
            self@ == fields_map(self.entries_view()),
    {
    }

    /// No fields.
    pub fn new() -> (r: Self)
        ensures
            r.entries_view() == Seq::<(Seq<char>, Seq<char>)>::empty(),
            r@ == Map::<Seq<char>, Seq<char>>::empty(),
    {
        let r = AdifFields { entries: Vec::new() };
        assert(r.entries_view() =~= Seq::<(Seq<char>, Seq<char>)>::empty());
        r
    }

    /// Adds a field; it replaces a field of the same name.
    pub fn insert(&mut self, key: String, value: String)
        ensures
            final(self).entries_view() == old(self).entries_view().push((key@, value@)),
            final(self)@ == old(self)@.insert(key@, value@),
    {
        let ghost before = self.entries_view();
        self.entries.push((key, value));
        assert(self.entries_view() =~= before.push((key@, value@)));
        assert(self.entries_view().drop_last() =~= before);
    }

    /// The value of a field.
    pub fn get(&self, key: &str) -> (r: Option<&String>)
        ensures
            match r {
                Some(v) => self@.contains_key(key@) && v@ == self@[key@],
                None => !self@.contains_key(key@),
            },
    {
        let ghost e = self.entries_view();
        let mut i = self.entries.len();
        while i > 0
            invariant
                i <= self.entries@.len(),
                e == self.entries_view(),
                forall|k: int| i <= k < e.len() ==> e[k].0 != key@,
            decreases i,
        {
            i = i - 1;
            let pair = &self.entries[i];
            assert(e[i as int] == (pair.0@, pair.1@));
            if crate::text::str_eq(pair.0.as_str(), key) {
                proof {
                    lemma_fields_map_last(e, i as int, key@);
                }
                return Some(&pair.1);
            }
        }
        proof {
            lemma_fields_map_absent(e, key@);
        }
        None
    }

    /// A field of that name was read.
    pub fn contains_key(&self, key: &str) -> (r: bool)
        ensures
            r == self@.contains_key(key@),
    {
        self.get(key).is_some()
    }

    /// No field was read.
    pub fn is_empty(&self) -> (r: bool)
        ensures
            r == (self.entries_view().len() == 0),
            r == (self@ == Map::<Seq<char>, Seq<char>>::empty()),
    {
        proof {
            let e = self.entries_view();
            if e.len() > 0 {
                assert(fields_map(e).contains_key(e.last().0));
            }
        }
        self.entries.len() == 0
    }
}

/// The last entry of `key` at index `i` gives its value.
pub proof fn lemma_fields_map_last(e: Seq<(Seq<char>, Seq<char>)>, i: int, key: Seq<char>)
    requires
        0 <= i < e.len(),
        e[i].0 == key,
        forall|k: int| i < k < e.len() ==> e[k].0 != key,
    ensures
        fields_map(e).contains_key(key),
        fields_map(e)[key] == e[i].1,
    decreases e.len(),
{
    if i < e.len() - 1 {
        lemma_fields_map_last(e.drop_last(), i, key);
    }
}

/// A name that no entry has is not in the map.
pub proof fn lemma_fields_map_absent(e: Seq<(Seq<char>, Seq<char>)>, key: Seq<char>)
    requires
        forall|k: int| 0 <= k < e.len() ==> e[k].0 != key,
    ensures
        !fields_map(e).contains_key(key),
    decreases e.len(),
{
    if e.len() > 0 {
        lemma_fields_map_absent(e.drop_last(), key);
    }
}

/// The first index from `i` on that holds byte `x` or `y`, or the length.
pub open spec fn find_byte(b: Seq<u8>, i: int, x: u8, y: u8) -> int
    decreases b.len() - i,
{
    if i < 0 || i >= b.len() {
        b.len() as int
    } else if b[i] == x || b[i] == y {
        i
    } else {
        find_byte(b, i + 1, x, y)
    }
}

/// A byte search ends within the bytes, at or after where it starts.
pub proof fn lemma_find_byte(b: Seq<u8>, i: int, x: u8, y: u8)
    requires
        0 <= i <= b.len(),
    ensures
        i <= find_byte(b, i, x, y) <= b.len(),
    decreases b.len() - i,
{
    if i < b.len() && !(b[i] == x || b[i] == y) {
        lemma_find_byte(b, i + 1, x, y);
    }
}

fn find_byte_exec(b: &Vec<u8>, i: usize, x: u8, y: u8) -> (r: usize)
    requires
        i <= b@.len(),
    ensures
        r == find_byte(b@, i as int, x, y),
        i <= r <= b@.len(),
{
    let mut j = i;
    while j < b.len() && b[j] != x && b[j] != y
        invariant
            i <= j <= b@.len(),
            find_byte(b@, i as int, x, y) == find_byte(b@, j as int, x, y),
        decreases b.len() - j,
    {
        j = j + 1;
    }
    j
}

/// The text of bytes that should be UTF-8, empty when they are not.
pub open spec fn text_or_empty(b: Seq<u8>) -> Seq<char> {
    match utf8_text(b) {
        Some(t) => t,
        None => Seq::empty(),
    }
}

fn text_exec(b: &Vec<u8>, from: usize, to: usize) -> (r: String)
    requires
        from <= to <= b@.len(),
    ensures
        r@ == text_or_empty(b@.subrange(from as int, to as int)),
{
    let v = sub_bytes(b.as_slice(), from, to);
    match from_utf8(v.as_slice()) {
        Some(s) => s,
        None => String::new(),
    }
}

/// The fields of an ADIF record read from byte `pos` on: each `<NAME>` or
/// `<NAME:length>` or `<NAME:length:type>` tag is followed by `length`
/// bytes of value; `<EOR>` and `<EOH>` are skipped, as is a tag with no
/// positive length or whose value would run past the end. `None` where a
/// value's bytes are not UTF-8 on their own (their end splits a character)
/// or its end passes the largest `usize`.
pub open spec fn adif_fields_from(b: Seq<u8>, pos: int) -> Option<Seq<(Seq<char>, Seq<char>)>>
    decreases b.len() - pos,
{
    let lt_b = 60u8;
    let gt_b = 62u8;
    let colon = 58u8;
    if pos < 0 || pos >= b.len() {
        Some(Seq::empty())
    } else {
        let lt = find_byte(b, pos, lt_b, lt_b);
        proof {
            lemma_find_byte(b, pos, lt_b, lt_b);
        }
        if lt >= b.len() {
            Some(Seq::empty())
        } else {
            let ts = lt + 1;
            let te = find_byte(b, ts, gt_b, colon);
            proof {
                lemma_find_byte(b, ts, gt_b, colon);
            }
            if te >= b.len() {
                Some(Seq::empty())
            } else {
                let up = str_upper(text_or_empty(b.subrange(ts, te)));
                if up == "EOR"@ || up == "EOH"@ {
                    let gt = find_byte(b, te, gt_b, gt_b);
                    proof {
                        lemma_find_byte(b, te, gt_b, gt_b);
                    }
                    if gt >= b.len() {
                        Some(Seq::empty())
                    } else {
                        adif_fields_from(b, gt + 1)
                    }
                } else {
                    let has_len = b[te] == colon;
                    let le = if has_len { find_byte(b, te + 1, gt_b, colon) } else { te };
                    proof {
                        lemma_find_byte(b, te + 1, gt_b, colon);
                    }
                    let length: int = if has_len {
                        crate::fle::tokenizer::parse_or(
                            text_or_empty(b.subrange(te + 1, le)),
                            usize::MAX as nat,
                            0,
                        ) as int
                    } else {
                        0
                    };
                    let p3 = if le < b.len() && b[le] == colon { find_byte(b, le, gt_b, gt_b) } else { le };
                    proof {
                        lemma_find_byte(b, le, gt_b, gt_b);
                    }
                    let p4 = if p3 < b.len() && b[p3] == gt_b { p3 + 1 } else { p3 };
                    if length > 0 && p4 + length > usize::MAX {
                        None
                    } else if length > 0 && p4 + length <= b.len() {
                        match utf8_text(b.subrange(p4, p4 + length)) {
                            Some(v) => match adif_fields_from(b, p4 + length) {
                                Some(rest) => Some(seq![(up, v)] + rest),
                                None => None,
                            },
                            None => None,
                        }
                    } else {
                        adif_fields_from(b, p4)
                    }
                }
            }
        }
    }
}

/// The fields of a record, in the order read; `None` where reading it would
/// split a character (see `adif_fields_from`).
pub open spec fn adif_record_fields(record: Seq<char>) -> Option<Seq<(Seq<char>, Seq<char>)>> {
    adif_fields_from(vstd::utf8::encode_utf8(record), 0)
}

/// Reads the fields of an ADIF record, or `None` where a value's declared
/// length ends inside a character or runs past the largest `usize`.
#[verifier::rlimit(40)]
pub fn scan_adif_record(record: &str) -> (r: Option<AdifFields>)
    ensures
        match r {
            Some(f) => adif_record_fields(record@) == Some(f.entries_view()),
            None => adif_record_fields(record@) is None,
        },
{
    let b = crate::text::bytes_of(record);
    let n = b.len();
    let mut fields = AdifFields::new();
    let mut pos: usize = 0;
    let ghost whole = adif_fields_from(b@, 0);
    while pos < n
        invariant
            n == b@.len(),
            b@ == vstd::utf8::encode_utf8(record@),
            whole == adif_fields_from(b@, 0),
            whole == (match adif_fields_from(b@, pos as int) {
                Some(rest) => Some(fields.entries_view() + rest),
                None => None::<Seq<(Seq<char>, Seq<char>)>>,
            }),
        decreases n - pos,
    {
        let ghost before = fields.entries_view();
        let lt = find_byte_exec(&b, pos, 60u8, 60u8);
        if lt >= n {
            pos = n;
            assert(before + Seq::<(Seq<char>, Seq<char>)>::empty() =~= before);
            continue;
        }
        let ts = lt + 1;
        let te = find_byte_exec(&b, ts, 62u8, 58u8);
        proof {
            lemma_find_byte(b@, ts as int, 62u8, 58u8);
        }
        if te >= n {
            pos = n;
            assert(before + Seq::<(Seq<char>, Seq<char>)>::empty() =~= before);
            continue;
        }
        let name = text_exec(&b, ts, te);
        let up = crate::text::to_upper(name.as_str());
        if crate::text::str_eq(up.as_str(), "EOR") || crate::text::str_eq(up.as_str(), "EOH") {
            let gt = find_byte_exec(&b, te, 62u8, 62u8);
            proof {
                lemma_find_byte(b@, te as int, 62u8, 62u8);
            }
            if gt >= n {
                pos = n;
                assert(before + Seq::<(Seq<char>, Seq<char>)>::empty() =~= before);
            } else {
                pos = gt + 1;
            }
            continue;
        }
        let has_len = b[te] == 58u8;
        let le = if has_len {
            find_byte_exec(&b, te + 1, 62u8, 58u8)
        } else {
            te
        };
        proof {
            lemma_find_byte(b@, te + 1, 62u8, 58u8);
        }
        let length: usize = if has_len {
            let t = text_exec(&b, te + 1, le);
            let cs = crate::text::chars_of(t.as_str());
            match crate::num::parse_u64(cs.as_slice()) {
                Some(v) => if v <= usize::MAX as u64 {
                    v as usize
                } else {
                    0
                },
                None => {
                    proof {
                        if let Some(v) = crate::num::parse_uint_max(t@, usize::MAX as nat) {
                            assert(crate::num::parse_uint_max(t@, u64::MAX as nat) == Some(v));
                        }
                    }
                    0
                },
            }
        } else {
            0
        };
        let p3 = if le < n && b[le] == 58u8 {
            find_byte_exec(&b, le, 62u8, 62u8)
        } else {
            le
        };
        proof {
            lemma_find_byte(b@, le as int, 62u8, 62u8);
        }
        let p4 = if p3 < n && b[p3] == 62u8 {
            p3 + 1
        } else {
            p3
        };
        if length > 0 && p4 > usize::MAX - length {
            return None;
        }
        if length > 0 && p4 + length <= n {
            let v = sub_bytes(b.as_slice(), p4, p4 + length);
            match from_utf8(v.as_slice()) {
                Some(value) => {
                    let ghost kv = (up@, value@);
                    fields.insert(up, value);
                    assert(before + (seq![kv] + adif_fields_from(b@, (p4 + length) as int)->0)
                        =~= fields.entries_view() + adif_fields_from(b@, (p4 + length) as int)->0);
                    pos = p4 + length;
                },
                None => {
                    return None;
                },
            }
        } else {
            pos = p4;
        }
    }
    proof {
        assert(adif_fields_from(b@, pos as int) == Some(Seq::<(Seq<char>, Seq<char>)>::empty()));
        assert(fields.entries_view() + Seq::<(Seq<char>, Seq<char>)>::empty() =~= fields.entries_view());
    }
    Some(fields)
}

/// Reading the record splits no character: every value's declared length
/// ends between characters and within the largest `usize`.
pub open spec fn adif_record_ok(record: Seq<char>) -> bool {
    adif_record_fields(record) is Some
}

/// The fields of a record by name (a record that `adif_record_ok` admits).
pub open spec fn adif_record_map(record: Seq<char>) -> Map<Seq<char>, Seq<char>> {
    fields_map(adif_record_fields(record)->0)
}

/// The UTF-8 form of two texts put together is their forms put together.
proof fn lemma_encode_concat(a: Seq<char>, b: Seq<char>)
    ensures
        vstd::utf8::encode_utf8(a + b) == vstd::utf8::encode_utf8(a) + vstd::utf8::encode_utf8(b),
    decreases a.len(),
{
    if a.len() == 0 {
        assert(a + b =~= b);
        assert(Seq::<u8>::empty() + vstd::utf8::encode_utf8(b) =~= vstd::utf8::encode_utf8(b));
    } else {
        assert((a + b).drop_first() =~= a.drop_first() + b);
        assert((a + b)[0] == a[0]);
        lemma_encode_concat(a.drop_first(), b);
        let es = vstd::utf8::encode_scalar(a[0] as u32);
        assert(es + (vstd::utf8::encode_utf8(a.drop_first()) + vstd::utf8::encode_utf8(b))
            =~= (es + vstd::utf8::encode_utf8(a.drop_first())) + vstd::utf8::encode_utf8(b));
    }
}

/// A byte search from `i` stops at the first `x` or `y` byte.
proof fn lemma_find_byte_at(b: Seq<u8>, i: int, k: int, x: u8, y: u8)
    requires
        0 <= i <= k < b.len(),
        forall|j: int| i <= j < k ==> b[j] != x && b[j] != y,
        b[k] == x || b[k] == y,
    ensures
        find_byte(b, i, x, y) == k,
    decreases k - i,
{
    if i < k {
        lemma_find_byte_at(b, i + 1, k, x, y);
    }
}

/// A name that an ADIF field can carry: ASCII, without `<`, `:` or `>`.
pub open spec fn adif_name_ok(name: Seq<char>) -> bool {
    &&& vstd::utf8::is_ascii_chars(name)
    &&& forall|i: int| 0 <= i < name.len() ==> (#[trigger] name[i]) != '<' && name[i] != ':' && name[i] != '>'
}

/// A field written as `<NAME:len>value` at byte `pos` of a text reads as
/// that field (its name upper-cased), followed by what the text holds after
/// it.
proof fn lemma_adif_tag_at(b: Seq<u8>, pos: int, name: Seq<char>, value: Seq<char>)
    requires
        adif_name_ok(name),
        value.len() > 0,
        0 <= pos,
        pos + vstd::utf8::encode_utf8(crate::logconv::types::adif_tag(name, value)).len() <= b.len(),
        b.len() <= usize::MAX,
        b.subrange(pos, pos + vstd::utf8::encode_utf8(crate::logconv::types::adif_tag(name, value)).len())
            == vstd::utf8::encode_utf8(crate::logconv::types::adif_tag(name, value)),
        str_upper(name) != "EOR"@,
        str_upper(name) != "EOH"@,
    ensures
        adif_fields_from(b, pos) == (match adif_fields_from(
            b,
            pos + vstd::utf8::encode_utf8(crate::logconv::types::adif_tag(name, value)).len(),
        ) {
            Some(rest) => Some(seq![(str_upper(name), value)] + rest),
            None => None,
        }),
{
    broadcast use vstd::utf8::group_utf8_lib;

    let en = vstd::utf8::encode_utf8(name);
    let ev = vstd::utf8::encode_utf8(value);
    let lt = seq!['<'];
    let colon = seq![':'];
    let gt = seq!['>'];
    let rec = crate::logconv::types::adif_tag(name, value);
    let n = crate::logconv::types::byte_len(value);
    let d = crate::num::dec(n);
    let p1 = lt + name;
    let p2 = p1 + colon;
    let p3 = p2 + d;
    let p4 = p3 + gt;
    assert(rec == p4 + value);
    lemma_encode_concat(p4, value);
    let t = vstd::utf8::encode_utf8(rec);
    assert(ev.len() <= t.len());
    assert(n == ev.len());
    crate::num::lemma_dec_reads_back(n);
    assert(vstd::utf8::is_ascii_chars(d)) by {
        assert forall|i: int| 0 <= i < d.len() implies '\0' <= #[trigger] d[i] <= '\u{7f}' by {
            assert(crate::num::is_digit(d[i]));
        }
    }
    assert(vstd::utf8::is_ascii_chars(lt));
    assert(vstd::utf8::is_ascii_chars(colon));
    assert(vstd::utf8::is_ascii_chars(gt));
    let elt = vstd::utf8::encode_utf8(lt);
    let ecol = vstd::utf8::encode_utf8(colon);
    let egt = vstd::utf8::encode_utf8(gt);
    let ed = vstd::utf8::encode_utf8(d);
    assert(elt.len() == 1 && elt[0] == 60u8);
    assert(ecol.len() == 1 && ecol[0] == 58u8);
    assert(egt.len() == 1 && egt[0] == 62u8);
    lemma_encode_concat(lt, name);
    lemma_encode_concat(p1, colon);
    lemma_encode_concat(p2, d);
    lemma_encode_concat(p3, gt);
    let a = name.len() as int;
    let dl = d.len() as int;
    let l = ev.len() as int;
    assert(en.len() == a && ed.len() == dl);
    assert(t == elt + en + ecol + ed + egt + ev);
    assert(t.len() == 3 + a + dl + l);
    // The bytes of the field, piece by piece.
    assert forall|j: int| 0 <= j < t.len() implies #[trigger] b[pos + j] == t[j] by {
        assert(b.subrange(pos, pos + t.len())[j] == b[pos + j]);
    }
    assert(b[pos] == 60u8) by {
        assert(b[pos + 0] == t[0]);
    }
    assert forall|j: int| 1 <= j < 1 + a implies #[trigger] b[pos + j] == en[j - 1] by {
        assert(b[pos + j] == t[j]);
    }
    assert(b[pos + 1 + a] == 58u8) by {
        assert(b[pos + (1 + a)] == t[1 + a]);
    }
    assert forall|j: int| 2 + a <= j < 2 + a + dl implies #[trigger] b[pos + j] == ed[j - 2 - a] by {
        assert(b[pos + j] == t[j]);
    }
    assert(b[pos + 2 + a + dl] == 62u8) by {
        assert(b[pos + (2 + a + dl)] == t[2 + a + dl]);
    }
    assert(b.subrange(pos + 1, pos + 1 + a) =~= en) by {
        assert forall|j: int| 0 <= j < a implies b.subrange(pos + 1, pos + 1 + a)[j] == en[j] by {
            assert(b[pos + (j + 1)] == en[j]);
        }
    }
    assert(b.subrange(pos + 2 + a, pos + 2 + a + dl) =~= ed) by {
        assert forall|j: int| 0 <= j < dl implies b.subrange(pos + 2 + a, pos + 2 + a + dl)[j] == ed[j] by {
            assert(b[pos + (j + 2 + a)] == ed[j]);
        }
    }
    assert(b.subrange(pos + 3 + a + dl, pos + 3 + a + dl + l) =~= ev) by {
        assert forall|j: int| 0 <= j < l implies b.subrange(pos + 3 + a + dl, pos + 3 + a + dl + l)[j] == ev[j] by {
            assert(b[pos + (j + 3 + a + dl)] == t[j + 3 + a + dl]);
        }
    }
    // The name's bytes hold neither `>` nor `:`; the digits' neither.
    assert forall|j: int| pos + 1 <= j < pos + 1 + a implies b[j] != 62u8 && b[j] != 58u8 by {
        let c = name[j - pos - 1];
        assert(b[pos + (j - pos)] == en[j - pos - 1]);
        assert(en[j - pos - 1] == c as u8);
        assert((c as nat) < 128);
        assert(c != '>' && c != ':');
    }
    assert forall|j: int| pos + 2 + a <= j < pos + 2 + a + dl implies b[j] != 62u8 && b[j] != 58u8 by {
        let c = d[j - pos - 2 - a];
        assert(b[pos + (j - pos)] == ed[j - pos - 2 - a]);
        assert(ed[j - pos - 2 - a] == c as u8);
        assert(crate::num::is_digit(c));
    }
    lemma_find_byte_at(b, pos, pos, 60u8, 60u8);
    lemma_find_byte_at(b, pos + 1, pos + 1 + a, 62u8, 58u8);
    lemma_find_byte_at(b, pos + 2 + a, pos + 2 + a + dl, 62u8, 58u8);
    assert(text_or_empty(b.subrange(pos + 1, pos + 1 + a)) == name);
    assert(text_or_empty(b.subrange(pos + 2 + a, pos + 2 + a + dl)) == d);
    assert(crate::fle::tokenizer::parse_or(d, usize::MAX as nat, 0) == n) by {
        assert(!(d.len() > 1 && d[0] == '+')) by {
            assert(crate::num::is_digit(d[0]));
        }
    }
    assert(l > 0) by {
        if l == 0 {
            assert(ev =~= Seq::<u8>::empty());
            assert(vstd::utf8::decode_utf8(ev) == value);
        }
    }
    assert(utf8_text(b.subrange(pos + 3 + a + dl, pos + 3 + a + dl + l)) == Some(value));
}

/// A field written as `<NAME:len>value` (see
/// `crate::logconv::types::adif_tag`) reads back as that one field: the
/// name upper-cased, as `str::to_uppercase` does, and the value. (A name
/// that upper-cases to EOR or EOH reads as the end of a record or header.)
pub proof fn lemma_adif_tag_reads_back(name: Seq<char>, value: Seq<char>)
    requires
        adif_name_ok(name),
        value.len() > 0,
        vstd::utf8::encode_utf8(crate::logconv::types::adif_tag(name, value)).len() <= usize::MAX,
    ensures
        str_upper(name) != "EOR"@ && str_upper(name) != "EOH"@ ==> adif_record_fields(
            crate::logconv::types::adif_tag(name, value),
        ) == Some(seq![(str_upper(name), value)]),
{
    let b = vstd::utf8::encode_utf8(crate::logconv::types::adif_tag(name, value));
    if str_upper(name) != "EOR"@ && str_upper(name) != "EOH"@ {
        assert(b.subrange(0, b.len() as int) =~= b);
        lemma_adif_tag_at(b, 0, name, value);
        assert(adif_fields_from(b, b.len() as int) == Some(Seq::<(Seq<char>, Seq<char>)>::empty()));
        assert(seq![(str_upper(name), value)] + Seq::<(Seq<char>, Seq<char>)>::empty() =~= seq![(str_upper(name), value)]);
    }
}

/// Fields written one after another as `<NAME:len>value`.
pub open spec fn adif_tags(fs: Seq<(Seq<char>, Seq<char>)>) -> Seq<char>
    decreases fs.len(),
{
    if fs.len() == 0 {
        Seq::empty()
    } else {
        crate::logconv::types::adif_tag(fs[0].0, fs[0].1) + adif_tags(fs.drop_first())
    }
}

/// The fields as they read back: each name upper-cased.
pub open spec fn upper_names(fs: Seq<(Seq<char>, Seq<char>)>) -> Seq<(Seq<char>, Seq<char>)> {
    fs.map_values(|f: (Seq<char>, Seq<char>)| (str_upper(f.0), f.1))
}

/// Fields that read back as written: names that an ADIF field can carry and
/// that do not upper-case to EOR or EOH, with values that are not empty.
pub open spec fn fields_writable(fs: Seq<(Seq<char>, Seq<char>)>) -> bool {
    forall|i: int| 0 <= i < fs.len() ==> {
        &&& adif_name_ok((#[trigger] fs[i]).0)
        &&& fs[i].1.len() > 0
        &&& str_upper(fs[i].0) != "EOR"@
        &&& str_upper(fs[i].0) != "EOH"@
    }
}

proof fn lemma_adif_tags_at(b: Seq<u8>, pos: int, fs: Seq<(Seq<char>, Seq<char>)>)
    requires
        fields_writable(fs),
        0 <= pos <= b.len(),
        b.len() <= usize::MAX,
        b.subrange(pos, b.len() as int) == vstd::utf8::encode_utf8(adif_tags(fs)),
    ensures
        adif_fields_from(b, pos) == Some(upper_names(fs)),
    decreases fs.len(),
{
    if fs.len() == 0 {
        assert(vstd::utf8::encode_utf8(Seq::<char>::empty()) =~= Seq::<u8>::empty());
        assert(pos == b.len());
        assert(upper_names(fs) =~= Seq::<(Seq<char>, Seq<char>)>::empty());
    } else {
        let tag = crate::logconv::types::adif_tag(fs[0].0, fs[0].1);
        let rest = fs.drop_first();
        lemma_encode_concat(tag, adif_tags(rest));
        let et = vstd::utf8::encode_utf8(tag);
        let er = vstd::utf8::encode_utf8(adif_tags(rest));
        let tl = et.len() as int;
        let whole = b.subrange(pos, b.len() as int);
        assert(whole == et + er);
        assert(b.len() - pos == tl + er.len());
        assert(b.subrange(pos, pos + tl) =~= et) by {
            assert forall|j: int| 0 <= j < tl implies b.subrange(pos, pos + tl)[j] == et[j] by {
                assert(whole[j] == b[pos + j]);
                assert((et + er)[j] == et[j]);
            }
        }
        assert(b.subrange(pos + tl, b.len() as int) =~= er) by {
            assert forall|j: int| 0 <= j < er.len() implies b.subrange(pos + tl, b.len() as int)[j] == er[j] by {
                assert(whole[tl + j] == b[pos + tl + j]);
                assert((et + er)[tl + j] == er[j]);
            }
        }
        assert(fields_writable(rest)) by {
            assert forall|i: int| 0 <= i < rest.len() implies {
                &&& adif_name_ok((#[trigger] rest[i]).0)
                &&& rest[i].1.len() > 0
                &&& str_upper(rest[i].0) != "EOR"@
                &&& str_upper(rest[i].0) != "EOH"@
            } by {
                assert(rest[i] == fs[i + 1]);
            }
        }
        assert(fs[0] == fs[0]);
        lemma_adif_tag_at(b, pos, fs[0].0, fs[0].1);
        lemma_adif_tags_at(b, pos + tl, rest);
        assert(upper_names(fs) =~= seq![(str_upper(fs[0].0), fs[0].1)] + upper_names(rest));
    }
}

/// Fields written one after another as `<NAME:len>value` read back as those
/// fields, in order: each name upper-cased, as `str::to_uppercase` does,
/// with its value.
pub proof fn lemma_adif_tags_read_back(fs: Seq<(Seq<char>, Seq<char>)>)
    requires
        fields_writable(fs),
        vstd::utf8::encode_utf8(adif_tags(fs)).len() <= usize::MAX,
    ensures
        adif_record_ok(adif_tags(fs)),
        adif_record_fields(adif_tags(fs)) == Some(upper_names(fs)),
{
    let b = vstd::utf8::encode_utf8(adif_tags(fs));
    assert(b.subrange(0, b.len() as int) =~= b);
    lemma_adif_tags_at(b, 0, fs);
}

/// The ADIF field names that log keys are written with are plain ASCII
/// names without `<`, `:` or `>`.
proof fn lemma_field_names_ok(key: Seq<char>)
    ensures
        adif_name_ok(crate::logconv::types::adif_field_name(key)@),
{
    reveal_strlit("STATION_CALLSIGN");
    reveal_strlit("CALL");
    reveal_strlit("QSO_DATE");
    reveal_strlit("TIME_ON");
    reveal_strlit("BAND");
    reveal_strlit("MODE");
    reveal_strlit("SUBMODE");
    reveal_strlit("RST_SENT");
    reveal_strlit("RST_RCVD");
    reveal_strlit("MY_SIG");
    reveal_strlit("MY_SIG_INFO");
    reveal_strlit("MY_STATE");
    reveal_strlit("SIG");
    reveal_strlit("SIG_INFO");
    reveal_strlit("SOTA_REF");
    reveal_strlit("MY_SOTA_REF");
    reveal_strlit("OPERATOR");
    reveal_strlit("PROGRAMID");
    reveal_strlit("ADIF_VER");
    reveal_strlit("COMMENT");
}

/// A field written by `crate::logconv::types::adif_field` and read back by
/// `parse_adif_record` is that one field: its ADIF name upper-cased, as
/// `str::to_uppercase` does, with the value written. (An empty value writes
/// nothing; a name that upper-cases to EOR or EOH reads as the end of a
/// record or header.)
pub proof fn lemma_adif_field_reads_back(key: Seq<char>, value: Seq<char>)
    requires
        value.len() > 0,
        vstd::utf8::encode_utf8(crate::logconv::types::adif_field_text(key, value)).len() <= usize::MAX,
    ensures
        ({
            let name = str_upper(crate::logconv::types::adif_field_name(key)@);
            let text = crate::logconv::types::adif_field_text(key, value);
            name != "EOR"@ && name != "EOH"@ ==> {
                &&& adif_record_ok(text)
                &&& adif_record_fields(text) == Some(seq![(name, value)])
                &&& adif_record_map(text) == Map::<Seq<char>, Seq<char>>::empty().insert(name, value)
            }
        }),
{
    let n = crate::logconv::types::adif_field_name(key)@;
    lemma_field_names_ok(key);
    lemma_adif_tag_reads_back(n, value);
    let text = crate::logconv::types::adif_field_text(key, value);
    assert(text == crate::logconv::types::adif_tag(n, value));
    let e = seq![(str_upper(n), value)];
    assert(e.drop_last() =~= Seq::<(Seq<char>, Seq<char>)>::empty());
    assert(fields_map(e) == fields_map(e.drop_last()).insert(str_upper(n), value));
}

/// Fields for log keys written one after another by
/// `crate::logconv::types::adif_field`.
pub open spec fn adif_field_texts(kvs: Seq<(Seq<char>, Seq<char>)>) -> Seq<char>
    decreases kvs.len(),
{
    if kvs.len() == 0 {
        Seq::empty()
    } else {
        crate::logconv::types::adif_field_text(kvs[0].0, kvs[0].1) + adif_field_texts(kvs.drop_first())
    }
}

/// The ADIF fields that log keys are written as: each key's ADIF name with
/// its value.
pub open spec fn named_fields(kvs: Seq<(Seq<char>, Seq<char>)>) -> Seq<(Seq<char>, Seq<char>)> {
    kvs.map_values(|kv: (Seq<char>, Seq<char>)| (crate::logconv::types::adif_field_name(kv.0)@, kv.1))
}

proof fn lemma_field_texts_are_tags(kvs: Seq<(Seq<char>, Seq<char>)>)
    requires
        forall|i: int| 0 <= i < kvs.len() ==> (#[trigger] kvs[i]).1.len() > 0,
    ensures
        adif_field_texts(kvs) == adif_tags(named_fields(kvs)),
    decreases kvs.len(),
{
    if kvs.len() > 0 {
        let rest = kvs.drop_first();
        assert forall|i: int| 0 <= i < rest.len() implies (#[trigger] rest[i]).1.len() > 0 by {
            assert(rest[i] == kvs[i + 1]);
        }
        lemma_field_texts_are_tags(rest);
        assert(named_fields(kvs).drop_first() =~= named_fields(rest));
        assert(kvs[0].1.len() > 0);
    }
}

/// Fields written one after another by `crate::logconv::types::adif_field`,
/// with values that are not empty, read back by `parse_adif_record` as
/// those fields in order: each key's ADIF name upper-cased, as
/// `str::to_uppercase` does, with its value. (A name that upper-cases to
/// EOR or EOH reads as the end of a record or header.)
pub proof fn lemma_adif_fields_read_back(kvs: Seq<(Seq<char>, Seq<char>)>)
    requires
        forall|i: int| 0 <= i < kvs.len() ==> (#[trigger] kvs[i]).1.len() > 0,
        vstd::utf8::encode_utf8(adif_field_texts(kvs)).len() <= usize::MAX,
    ensures
        (forall|i: int| 0 <= i < kvs.len() ==> {
            &&& str_upper(crate::logconv::types::adif_field_name((#[trigger] kvs[i]).0)@) != "EOR"@
            &&& str_upper(crate::logconv::types::adif_field_name(kvs[i].0)@) != "EOH"@
        }) ==> {
            &&& adif_record_ok(adif_field_texts(kvs))
            &&& adif_record_fields(adif_field_texts(kvs)) == Some(upper_names(named_fields(kvs)))
        },
{
    lemma_field_texts_are_tags(kvs);
    let fs = named_fields(kvs);
    if forall|i: int| 0 <= i < kvs.len() ==> {
        &&& str_upper(crate::logconv::types::adif_field_name((#[trigger] kvs[i]).0)@) != "EOR"@
        &&& str_upper(crate::logconv::types::adif_field_name(kvs[i].0)@) != "EOH"@
    } {
        assert(fields_writable(fs)) by {
            assert forall|i: int| 0 <= i < fs.len() implies {
                &&& adif_name_ok((#[trigger] fs[i]).0)
                &&& fs[i].1.len() > 0
                &&& str_upper(fs[i].0) != "EOR"@
                &&& str_upper(fs[i].0) != "EOH"@
            } by {
                lemma_field_names_ok(kvs[i].0);
                assert(fs[i] == (crate::logconv::types::adif_field_name(kvs[i].0)@, kvs[i].1));
            }
        }
        lemma_adif_tags_read_back(fs);
    }
}

/// Reads the fields of an ADIF record.
pub fn parse_adif_record(record: &str) -> (r: AdifFields)
    requires
        adif_record_ok(record@),
    ensures
        Some(r.entries_view()) == adif_record_fields(record@),
        r@ == adif_record_map(record@),
{
    match scan_adif_record(record) {
        Some(f) => f,
        None => AdifFields::new(),
    }
}

/// The byte offset where the body of an ADIF text starts: after the first
/// `<EOH>` of the upper-cased text, else 0; `None` where that offset passes
/// the largest `usize`.
pub open spec fn adif_body_start(content: Seq<char>) -> Option<int> {
    let up = str_upper(content);
    match crate::text::find_from(up, "<EOH>"@, 0) {
        Some(i) => {
            let p = crate::logconv::types::byte_len(up.take(i)) + 5;
            if p > usize::MAX {
                None
            } else {
                Some(p as int)
            }
        },
        None => Some(0),
    }
}

/// The body of an ADIF text, or `None` where the body's start does not fall
/// between two characters of the text.
pub open spec fn adif_body(content: Seq<char>) -> Option<Seq<char>> {
    let b = vstd::utf8::encode_utf8(content);
    match adif_body_start(content) {
        Some(start) => if start > b.len() {
            None
        } else {
            utf8_text(b.subrange(start, b.len() as int))
        },
        None => None,
    }
}

/// A piece of the body that is read as a record: it holds an `<eor>` in
/// any case and is not blank.
pub open spec fn adif_piece_selected(p: Seq<char>) -> bool {
    crate::text::contains_seq(crate::text::str_lower(p), "<eor>"@) && crate::text::trimmed(p).len() > 0
}

/// The records of the pieces: each selected piece's fields, kept when they
/// are not empty and hold a CALL.
pub open spec fn adif_records_of(pieces: Seq<Seq<char>>) -> Seq<Map<Seq<char>, Seq<char>>>
    decreases pieces.len(),
{
    if pieces.len() == 0 {
        Seq::empty()
    } else {
        let prev = adif_records_of(pieces.drop_last());
        let p = pieces.last();
        if adif_piece_selected(p) && adif_record_fields(p) is Some {
            let e = adif_record_fields(p)->0;
            if e.len() > 0 && fields_map(e).contains_key("CALL"@) {
                prev.push(fields_map(e))
            } else {
                prev
            }
        } else {
            prev
        }
    }
}

/// The pieces of the body, each ending with `<EOR>` in any case of its
/// letters (the last may not).
pub open spec fn adif_pieces(content: Seq<char>) -> Seq<Seq<char>> {
    crate::text::split_incl_ci(adif_body(content)->0, "<EOR>"@)
}

/// An ADIF text that reading splits no character: its body starts between
/// two characters and every selected piece is a readable record.
pub open spec fn adif_content_ok(content: Seq<char>) -> bool {
    &&& adif_body(content) is Some
    &&& forall|i: int|
        0 <= i < adif_pieces(content).len() && adif_piece_selected(#[trigger] adif_pieces(content)[i])
            ==> adif_record_ok(adif_pieces(content)[i])
}

/// The plain values of a sequence of field sets.
pub open spec fn field_views(v: Seq<AdifFields>) -> Seq<Map<Seq<char>, Seq<char>>> {
    v.map_values(|f: AdifFields| f@)
}

/// Reads the records of an ADIF text (see `parse_adif`), or gives `None`
/// for a text that `parse_adif` cannot read without splitting a character
/// (see `adif_content_ok`).
pub fn try_parse_adif(content: &str) -> (r: Option<Vec<AdifFields>>)
    ensures
        r is Some == adif_content_ok(content@),
        r matches Some(v) ==> field_views(v@) == adif_records_of(adif_pieces(content@)),
{
    let up = crate::text::to_upper(content);
    let ucs = crate::text::chars_of(up.as_str());
    let eoh = crate::text::chars_of("<EOH>");
    proof {
        reveal_strlit("<EOH>");
        reveal_strlit("<EOR>");
        reveal_strlit("<eor>");
        reveal_strlit("CALL");
    }
    let start: usize = match crate::text::find(ucs.as_slice(), eoh.as_slice()) {
        Some(i) => {
            let prefix = crate::text::string_of(crate::text::sub_chars(ucs.as_slice(), 0, i).as_slice());
            assert(prefix@ =~= up@.take(i as int));
            let plen = prefix.as_str().len();
            if plen > usize::MAX - 5 {
                return None;
            }
            plen + 5
        },
        None => 0,
    };
    let cb = crate::text::bytes_of(content);
    assert(adif_body_start(content@) == Some(start as int));
    if start > cb.len() {
        return None;
    }
    let body = match from_utf8(sub_bytes(cb.as_slice(), start, cb.len()).as_slice()) {
        Some(t) => t,
        None => {
            return None;
        },
    };
    let bcs = crate::text::chars_of(body.as_str());
    let eor = crate::text::chars_of("<EOR>");
    let pieces = crate::text::split_inclusive_ci(bcs.as_slice(), eor.as_slice());
    let ghost pv = crate::text::views(pieces@);
    assert(pv == adif_pieces(content@));
    let mut out: Vec<AdifFields> = Vec::new();
    let mut i: usize = 0;
    assert(pv.take(0) =~= Seq::<Seq<char>>::empty());
    assert(field_views(out@) =~= Seq::<Map<Seq<char>, Seq<char>>>::empty());
    while i < pieces.len()
        invariant
            i <= pieces@.len(),
            pv == crate::text::views(pieces@),
            pv == adif_pieces(content@),
            adif_body(content@) is Some,
            forall|k: int| 0 <= k < i && adif_piece_selected(#[trigger] pv[k]) ==> adif_record_ok(pv[k]),
            field_views(out@) == adif_records_of(pv.take(i as int)),
        decreases pieces@.len() - i,
    {
        assert(pv.take(i + 1).drop_last() =~= pv.take(i as int));
        let piece = crate::text::string_of(pieces[i].as_slice());
        assert(piece@ == pv[i as int]);
        let lower = crate::text::to_lower(piece.as_str());
        let lcs = crate::text::chars_of(lower.as_str());
        let mark = crate::text::chars_of("<eor>");
        let t = crate::text::trim(pieces[i].as_slice());
        if crate::text::contains(lcs.as_slice(), mark.as_slice()) && t.len() > 0 {
            let fields = match scan_adif_record(piece.as_str()) {
                Some(f) => f,
                None => {
                    assert(adif_piece_selected(pv[i as int]) && !adif_record_ok(pv[i as int]));
                    return None;
                },
            };
            proof {
                fields.lemma_view();
            }
            if !fields.is_empty() && fields.contains_key("CALL") {
                let ghost before = field_views(out@);
                let ghost fv = fields@;
                out.push(fields);
                assert(field_views(out@) =~= before.push(fv));
            }
        }
        i = i + 1;
    }
    assert(pv.take(pieces@.len() as int) =~= pv);
    Some(out)
}

/// Reads the records of an ADIF text: the body after `<EOH>` is split after
/// each `<EOR>`, its letters in either case, and each piece that holds such
/// an end-of-record mark and is not blank is read; a record is kept when it
/// holds a CALL.
pub fn parse_adif(content: &str) -> (r: Vec<AdifFields>)
    requires
        adif_content_ok(content@),
    ensures
        field_views(r@) == adif_records_of(adif_pieces(content@)),
{
    match try_parse_adif(content) {
        Some(v) => v,
        None => Vec::new(),
    }
}

/// The text of the bytes `a..b` of a string's UTF-8 form, or `None` where
/// they fall outside it or split a character.
pub open spec fn byte_slice(s: Seq<char>, a: int, b: int) -> Option<Seq<char>> {
    let e = vstd::utf8::encode_utf8(s);
    if 0 <= a <= b <= e.len() {
        utf8_text(e.subrange(a, b))
    } else {
        None
    }
}

pub(crate) fn byte_slice_exec(s: &str, a: usize, b: usize) -> (r: Option<String>)
    ensures
        match r {
            Some(t) => byte_slice(s@, a as int, b as int) == Some(t@),
            None => byte_slice(s@, a as int, b as int) is None,
        },
{
    let e = crate::text::bytes_of(s);
    if a <= b && b <= e.len() {
        from_utf8(sub_bytes(e.as_slice(), a, b).as_slice())
    } else {
        None
    }
}

/// `parse::<i32>()`, or `default` where it fails.
pub open spec fn parse_i32_or(s: Seq<char>, default: i32) -> i32 {
    match crate::num::parse_signed(s) {
        Some(v) => if i32::MIN <= v <= i32::MAX { v as i32 } else { default },
        None => default,
    }
}

/// `parse::<u32>()`, or `default` where it fails.
pub open spec fn parse_u32_or(s: Seq<char>, default: u32) -> u32 {
    crate::fle::tokenizer::parse_or(s, u32::MAX as nat, default as nat) as u32
}

pub(crate) fn parse_i32_or_exec(s: &str, default: i32) -> (r: i32)
    ensures
        r == parse_i32_or(s@, default),
{
    let cs = crate::text::chars_of(s);
    match crate::num::parse_i64(cs.as_slice()) {
        Some(v) => if -2147483648 <= v && v <= 2147483647 {
            v as i32
        } else {
            default
        },
        None => default,
    }
}

pub(crate) fn parse_u32_or_exec(s: &str, default: u32) -> (r: u32)
    ensures
        r == parse_u32_or(s@, default),
{
    let cs = crate::text::chars_of(s);
    match crate::num::parse_u64(cs.as_slice()) {
        Some(v) => if v <= u32::MAX as u64 {
            v as u32
        } else {
            default
        },
        None => {
            proof {
                if let Some(v) = crate::num::parse_uint_max(s@, u32::MAX as nat) {
                    assert(crate::num::parse_uint_max(s@, u64::MAX as nat) == Some(v));
                }
            }
            default
        },
    }
}

/// The value of a field, or `d` when absent.
pub open spec fn field_or(m: Map<Seq<char>, Seq<char>>, k: Seq<char>, d: Seq<char>) -> Seq<char> {
    if m.contains_key(k) {
        m[k]
    } else {
        d
    }
}

/// Year, month and day of a QSO_DATE (YYYYMMDD, by bytes); `None` where a
/// slice splits a character. Unreadable parts count as 1900, 1 and 1.
pub open spec fn adif_date(date: Seq<char>) -> Option<(i32, u32, u32)> {
    match (byte_slice(date, 0, 4), byte_slice(date, 4, 6), byte_slice(date, 6, 8)) {
        (Some(y), Some(m), Some(d)) => Some(
            (parse_i32_or(y, 1900), parse_u32_or(m, 1), parse_u32_or(d, 1)),
        ),
        _ => None,
    }
}

/// Hour and minute of a TIME_ON (HHMM or HHMMSS, by bytes); `None` where a
/// slice splits a character. Unreadable parts count as 0.
pub open spec fn adif_time(time: Seq<char>) -> Option<(u32, u32)> {
    match (byte_slice(time, 0, 2), byte_slice(time, 2, 4)) {
        (Some(h), Some(m)) => Some((parse_u32_or(h, 0), parse_u32_or(m, 0))),
        _ => None,
    }
}

/// The outcome of decoding a record: the error message, `Ok` when a QSO
/// comes out, `None` where reading splits a character.
pub open spec fn decode_adif_outcome(record: Seq<char>) -> Option<Result<(), Seq<char>>> {
    if !adif_record_ok(record) {
        None
    } else {
        let m = adif_record_map(record);
        if adif_record_fields(record)->0.len() == 0 {
            Some(Err("Empty ADIF record"@))
        } else if !m.contains_key("CALL"@) {
            Some(Err("Missing CALL field"@))
        } else if !m.contains_key("QSO_DATE"@) {
            Some(Err("Missing QSO_DATE field"@))
        } else if !m.contains_key("TIME_ON"@) {
            Some(Err("Missing TIME_ON field"@))
        } else if crate::logconv::types::byte_len(m["QSO_DATE"@]) < 8 {
            Some(Err("Invalid QSO_DATE: "@ + m["QSO_DATE"@]))
        } else if adif_date(m["QSO_DATE"@]) is None {
            None
        } else if crate::logconv::types::byte_len(m["TIME_ON"@]) < 4 {
            Some(Err("Invalid TIME_ON: "@ + m["TIME_ON"@]))
        } else if adif_time(m["TIME_ON"@]) is None {
            None
        } else {
            Some(Ok(()))
        }
    }
}

/// The wavelength of a decoded record: the band of FREQ when it lies in one,
/// else FREQ as written; else BAND; else empty.
pub open spec fn adif_wavelength(m: Map<Seq<char>, Seq<char>>) -> Seq<char> {
    if m.contains_key("FREQ"@) {
        match crate::fle::compiler::freq_wavelength(m["FREQ"@]) {
            Some(w) => w@,
            None => m["FREQ"@],
        }
    } else {
        field_or(m, "BAND"@, Seq::empty())
    }
}

fn get_or(fields: &AdifFields, key: &str, d: &str) -> (r: String)
    ensures
        r@ == field_or(fields@, key@, d@),
{
    match fields.get(key) {
        Some(v) => v.clone(),
        None => crate::text::copy_str(d),
    }
}

/// What decoding an ADIF record gives (see `decode_adif`): the error of
/// `decode_adif_outcome`, or the QSO read from the record's fields.
pub open spec fn adif_decoded(record: Seq<char>, r: Result<QsoRecord, String>) -> bool {
    match r {
        Err(e) => decode_adif_outcome(record) == Some(Err::<(), Seq<char>>(e@)),
        Ok(q) => {
            let m = adif_record_map(record);
            let d = adif_date(m["QSO_DATE"@])->0;
            let t = adif_time(m["TIME_ON"@])->0;
            let md = crate::logconv::types::adif_mode_of(field_or(m, "MODE"@, Seq::empty()));
            &&& decode_adif_outcome(record) == Some(Ok::<(), Seq<char>>(()))
            &&& !q.has_error && q.error_message@.len() == 0 && q.date_error@.len() == 0
            &&& q.time_error@.len() == 0 && q.band_error@.len() == 0
            &&& q.callsign@ == m["CALL"@]
            &&& q.operator@.len() == 0 && q.portable@.len() == 0 && q.iso_time@.len() == 0
            &&& q.year == d.0 && q.month == d.1 && q.day == d.2
            &&& q.hour == t.0 && q.minute == t.1
            &&& q.timezone@ == "+0000"@
            &&& q.rst_sent@ == field_or(m, "RST_SENT"@, Seq::empty())
            &&& q.rst_rcvd@ == field_or(m, "RST_RCVD"@, Seq::empty())
            &&& q.freq@ == field_or(m, "FREQ"@, Seq::empty())
            &&& q.band@.len() == 0 && q.band_sota@.len() == 0
            &&& q.band_wlen@ == adif_wavelength(m)
            &&& q.mode@ == md.0 && q.sub_mode@ == md.1
            &&& q.mode_airham@.len() == 0 && q.mode_sota@.len() == 0 && q.code@.len() == 0
            &&& q.gridsquare@ == field_or(m, "GRIDSQUARE"@, Seq::empty())
            &&& q.qsl@.len() == 0 && q.qsl_sent == 0 && q.qsl_rcvd == 0
            &&& q.name@ == field_or(m, "NAME"@, Seq::empty())
            &&& q.qth@ == field_or(m, "SIG_INFO"@, field_or(m, "SOTA_REF"@, Seq::empty()))
            &&& q.remarks1@ == field_or(m, "MY_SIG_INFO"@, field_or(m, "MY_SOTA_REF"@, "unknown"@))
            &&& q.remarks2@ == field_or(m, "COMMENT"@, Seq::empty())
        },
    }
}

/// Decodes an ADIF record into a QSO: the date and time are read by bytes
/// from QSO_DATE and TIME_ON (taken as UTC), the wavelength from FREQ or
/// BAND, the ADIF mode and submode from MODE; my reference goes to
/// `remarks1` (MY_SIG_INFO, else MY_SOTA_REF, else "unknown") and the
/// other station's to `qth` (SIG_INFO, else SOTA_REF).
pub fn decode_adif(record: &str) -> (r: Result<QsoRecord, String>)
    requires
        decode_adif_outcome(record@) is Some,
    ensures
        adif_decoded(record@, r),
{
    proof {
        reveal_strlit("");
        assert(""@ =~= Seq::<char>::empty());
    }
    let fields = parse_adif_record(record);
    if fields.is_empty() {
        return Err(String::from_str("Empty ADIF record"));
    }
    let call = match fields.get("CALL") {
        Some(c) => c.clone(),
        None => {
            return Err(String::from_str("Missing CALL field"));
        },
    };
    let qso_date = match fields.get("QSO_DATE") {
        Some(d) => d,
        None => {
            return Err(String::from_str("Missing QSO_DATE field"));
        },
    };
    let time_on = match fields.get("TIME_ON") {
        Some(t) => t,
        None => {
            return Err(String::from_str("Missing TIME_ON field"));
        },
    };
    if qso_date.as_str().len() < 8 {
        return Err(crate::text::concat2("Invalid QSO_DATE: ", qso_date.as_str()));
    }
    let ys = byte_slice_exec(qso_date.as_str(), 0, 4);
    let ms = byte_slice_exec(qso_date.as_str(), 4, 6);
    let ds = byte_slice_exec(qso_date.as_str(), 6, 8);
    let (year, month, day) = match (ys, ms, ds) {
        (Some(y), Some(m), Some(d)) => (
            parse_i32_or_exec(y.as_str(), 1900),
            parse_u32_or_exec(m.as_str(), 1),
            parse_u32_or_exec(d.as_str(), 1),
        ),
        _ => (1900, 1, 1),
    };
    if time_on.as_str().len() < 4 {
        return Err(crate::text::concat2("Invalid TIME_ON: ", time_on.as_str()));
    }
    let hs = byte_slice_exec(time_on.as_str(), 0, 2);
    let mins = byte_slice_exec(time_on.as_str(), 2, 4);
    let (hour, minute) = match (hs, mins) {
        (Some(h), Some(m)) => (parse_u32_or_exec(h.as_str(), 0), parse_u32_or_exec(m.as_str(), 0)),
        _ => (0, 0),
    };
    let wlen = match fields.get("FREQ") {
        Some(freq) => match crate::logconv::types::freq_to_band(freq.as_str()) {
            Ok(t) => crate::text::copy_str(t.2),
            Err(_) => freq.clone(),
        },
        None => get_or(&fields, "BAND", ""),
    };
    let mode_raw = get_or(&fields, "MODE", "");
    let md = crate::logconv::types::mode_to_adif_mode(mode_raw.as_str());
    assert(mode_raw@ == field_or(fields@, "MODE"@, Seq::empty()));
    let mode = md.0;
    let sub_mode = md.1;
    let my_sig = match fields.get("MY_SIG_INFO") {
        Some(v) => v.clone(),
        None => get_or(&fields, "MY_SOTA_REF", "unknown"),
    };
    let his_sig = match fields.get("SIG_INFO") {
        Some(v) => v.clone(),
        None => get_or(&fields, "SOTA_REF", ""),
    };
    Ok(QsoRecord {
        has_error: false,
        error_message: String::new(),
        date_error: String::new(),
        time_error: String::new(),
        band_error: String::new(),
        callsign: call,
        operator: String::new(),
        portable: String::new(),
        iso_time: String::new(),
        year,
        month,
        day,
        hour,
        minute,
        timezone: String::from_str("+0000"),
        rst_sent: get_or(&fields, "RST_SENT", ""),
        rst_rcvd: get_or(&fields, "RST_RCVD", ""),
        freq: get_or(&fields, "FREQ", ""),
        band: String::new(),
        band_sota: String::new(),
        band_wlen: wlen,
        mode,
        sub_mode,
        mode_airham: String::new(),
        mode_sota: String::new(),
        code: String::new(),
        gridsquare: get_or(&fields, "GRIDSQUARE", ""),
        qsl: String::new(),
        qsl_sent: 0,
        qsl_rcvd: 0,
        name: get_or(&fields, "NAME", ""),
        qth: his_sig,
        remarks1: my_sig,
        remarks2: get_or(&fields, "COMMENT", ""),
    })
}

/// Whether an ADIF record can be decoded without splitting a character
/// (see `decode_adif_outcome`).
pub fn adif_decodable(record: &str) -> (r: bool)
    ensures
        r == (decode_adif_outcome(record@) is Some),
{
    let fields = match scan_adif_record(record) {
        Some(f) => f,
        None => {
            return false;
        },
    };
    proof {
        fields.lemma_view();
    }
    if fields.is_empty() || !fields.contains_key("CALL") {
        return true;
    }
    let qso_date = match fields.get("QSO_DATE") {
        Some(d) => d,
        None => {
            return true;
        },
    };
    let time_on = match fields.get("TIME_ON") {
        Some(t) => t,
        None => {
            return true;
        },
    };
    if qso_date.as_str().len() < 8 {
        return true;
    }
    if byte_slice_exec(qso_date.as_str(), 0, 4).is_none() || byte_slice_exec(qso_date.as_str(), 4, 6).is_none()
        || byte_slice_exec(qso_date.as_str(), 6, 8).is_none() {
        return false;
    }
    if time_on.as_str().len() < 4 {
        return true;
    }
    byte_slice_exec(time_on.as_str(), 0, 2).is_some() && byte_slice_exec(time_on.as_str(), 2, 4).is_some()
}

/// Decodes an ADIF record (see `decode_adif`), or gives `None` for a record
/// that cannot be decoded without splitting a character.
pub fn try_decode_adif(record: &str) -> (r: Option<Result<QsoRecord, String>>)
    ensures
        r is Some == (decode_adif_outcome(record@) is Some),
        r matches Some(x) ==> adif_decoded(record@, x),
{
    if adif_decodable(record) {
        Some(decode_adif(record))
    } else {
        None
    }
}

} // verus!
