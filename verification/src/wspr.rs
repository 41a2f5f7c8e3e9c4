//! The data of a WSPR chart: spots read from text, sorted into time
//! windows, and the reporters that all windows share.
use vstd::prelude::*;
use crate::calendar::{parsed_datetime, seconds_of};
use crate::logconv::adif::byte_slice;
use crate::logconv::types::byte_len;
use crate::model::award::parsed_seconds;
use crate::logconv::adif::parse_i32_or;
use crate::text::{lines_of, sep_pred, split_when, str_lower, SepKind};
use crate::aprs_service::lemma_insert_members;

verus! {

/// A request for a WSPR chart: a title, the time windows to plot, the spot
/// lines, the distance range of the spots, whether to label points, and
/// the width.
#[derive(Debug, Clone)]
pub struct WsprRequest {
    pub title: String,
    pub plots: Vec<PlotConfig>,
    pub spots: String,
    pub min: i32,
    pub max: i32,
    pub label: bool,
    pub width: i32,
}

/// One time window of a chart: its label, color and start and end times.
#[derive(Debug, Clone)]
pub struct PlotConfig {
    pub label: String,
    pub color: String,
    pub from: String,
    pub to: String,
}

/// The format "YYYY-MM-DD HH:MM".
pub const WSPR_MINUTES: &'static str = "%Y-%m-%d %H:%M";

/// The format "YYYY/MM/DD HH:MM:SS".
pub const WSPR_SECONDS: &'static str = "%Y/%m/%d %H:%M:%S";

/// The Unix time of a date and time written in one of the two formats.
pub open spec fn wspr_time(s: Seq<char>) -> Option<int> {
    match parsed_datetime(s, WSPR_MINUTES@) {
        Some(t) => Some(parsed_seconds(t) - seconds_of(1970, 1, 1, 0, 0, 0)),
        None => match parsed_datetime(s, WSPR_SECONDS@) {
            Some(t) => Some(parsed_seconds(t) - seconds_of(1970, 1, 1, 0, 0, 0)),
            None => None,
        },
    }
}

/// The Unix time of a date and time (see `wspr_time`).
pub fn parse_datetime(s: &str) -> (r: Option<i64>)
    ensures
        match r {
            Some(x) => wspr_time(s@) == Some(x as int),
            None => wspr_time(s@) is None,
        },
{
    match crate::calendar::parse_datetime_fields(s, WSPR_MINUTES) {
        Some(t) => Some(unix_of_fields(t)),
        None => match crate::calendar::parse_datetime_fields(s, WSPR_SECONDS) {
            Some(t) => Some(unix_of_fields(t)),
            None => None,
        },
    }
}

fn unix_of_fields(t: (i32, u32, u32, u32, u32, u32)) -> (r: i64)
    requires
        crate::calendar::valid_datetime(t.0 as int, t.1 as int, t.2 as int, t.3 as int, t.4 as int, t.5 as int),
    ensures
        r == parsed_seconds(t) - seconds_of(1970, 1, 1, 0, 0, 0),
{
    assert(crate::calendar::days_before_month(1970, 1) == 0);
    assert(crate::calendar::day_number(1970, 1, 1) == 719163);
    assert(seconds_of(1970, 1, 1, 0, 0, 0) == crate::calendar::day_number(1970, 1, 1) * 86400 + 0 * 3600 + 0 * 60 + 0);
    assert(seconds_of(1970, 1, 1, 0, 0, 0) == 62135683200);
    proof {
        crate::calendar::lemma_valid_day_number_bounds(t.0 as int, t.1 as int, t.2 as int);
    }
    crate::model::award::seconds_of_fields(t) - 62135683200
}

/// The value of a hexadecimal digit.
pub open spec fn hex_digit(c: char) -> Option<nat> {
    if '0' <= c <= '9' {
        Some((c as nat - '0' as nat) as nat)
    } else if 'a' <= c <= 'f' {
        Some((c as nat - 'a' as nat + 10) as nat)
    } else if 'A' <= c <= 'F' {
        Some((c as nat - 'A' as nat + 10) as nat)
    } else {
        None
    }
}

/// The value of a run of hexadecimal digits.
pub open spec fn hex_value(s: Seq<char>) -> Option<nat>
    decreases s.len(),
{
    if s.len() == 0 {
        Some(0)
    } else {
        match (hex_value(s.drop_last()), hex_digit(s.last())) {
            (Some(v), Some(d)) => Some(v * 16 + d),
            _ => None,
        }
    }
}

/// `u8::from_str_radix(s, 16)`: an optional '+' and at least one
/// hexadecimal digit, of a value below 256.
pub open spec fn hex_u8(s: Seq<char>) -> Option<u8> {
    let digits = if s.len() > 0 && s[0] == '+' { s.drop_first() } else { s };
    if digits.len() == 0 {
        None
    } else {
        match hex_value(digits) {
            Some(v) => if v < 256 { Some(v as u8) } else { None },
            None => None,
        }
    }
}

/// A text without its leading '#' characters.
pub open spec fn without_hashes(s: Seq<char>) -> Seq<char>
    decreases s.len(),
{
    if s.len() > 0 && s[0] == '#' {
        without_hashes(s.drop_first())
    } else {
        s
    }
}

/// The color of a color text: "#rrggbb" in hexadecimal (a pair that does
/// not read gives 0), or one of the color names red, blue, green, black,
/// yellow, cyan, magenta, orange and purple in any case; black otherwise.
pub open spec fn color_of(color: Seq<char>) -> (u8, u8, u8) {
    let c = without_hashes(color);
    if byte_len(c) >= 6 {
        (
            match hex_u8(byte_slice(c, 0, 2)->0) { Some(v) => v, None => 0 },
            match hex_u8(byte_slice(c, 2, 4)->0) { Some(v) => v, None => 0 },
            match hex_u8(byte_slice(c, 4, 6)->0) { Some(v) => v, None => 0 },
        )
    } else {
        let n = str_lower(c);
        if n == "red"@ {
            (255, 0, 0)
        } else if n == "blue"@ {
            (0, 0, 255)
        } else if n == "green"@ {
            (0, 255, 0)
        } else if n == "yellow"@ {
            (255, 255, 0)
        } else if n == "cyan"@ {
            (0, 255, 255)
        } else if n == "magenta"@ {
            (255, 0, 255)
        } else if n == "orange"@ {
            (255, 165, 0)
        } else if n == "purple"@ {
            (128, 0, 128)
        } else {
            (0, 0, 0)
        }
    }
}

/// A color text whose hexadecimal pairs begin and end between characters.
pub open spec fn color_text_ok(color: Seq<char>) -> bool {
    let c = without_hashes(color);
    byte_len(c) >= 6 ==> (byte_slice(c, 0, 2) is Some && byte_slice(c, 2, 4) is Some && byte_slice(c, 4, 6) is Some)
}

fn hex_digit_exec(c: char) -> (r: Option<u64>)
    ensures
        match hex_digit(c) {
            Some(d) => r == Some(d as u64),
            None => r is None,
        },
{
    if '0' <= c && c <= '9' {
        Some((c as u64) - ('0' as u64))
    } else if 'a' <= c && c <= 'f' {
        Some((c as u64) - ('a' as u64) + 10)
    } else if 'A' <= c && c <= 'F' {
        Some((c as u64) - ('A' as u64) + 10)
    } else {
        None
    }
}

fn hex_u8_exec(s: &str) -> (r: Option<u8>)
    ensures
        r == hex_u8(s@),
{
    let cs = crate::text::chars_of(s);
    let start: usize = if cs.len() > 0 && cs[0] == '+' {
        1
    } else {
        0
    };
    let ghost digits = if s@.len() > 0 && s@[0] == '+' { s@.drop_first() } else { s@ };
    assert(digits =~= s@.subrange(start as int, s@.len() as int));
    if start >= cs.len() {
        return None;
    }
    let mut v: u64 = 0;
    let mut i: usize = start;
    assert(digits.take(0) =~= Seq::<char>::empty());
    while i < cs.len()
        invariant
            start <= i <= cs@.len(),
            cs@ == s@,
            digits =~= s@.subrange(start as int, s@.len() as int),
            digits == (if s@.len() > 0 && s@[0] == '+' { s@.drop_first() } else { s@ }),
            hex_value(digits.take(i - start)) == Some(v as nat),
            v < 256,
        decreases cs.len() - i,
    {
        let c = cs[i];
        let ghost k = (i + 1 - start) as int;
        assert(digits.take(k).drop_last() =~= digits.take(i - start));
        assert(digits.take(k).last() == c);
        match hex_digit_exec(c) {
            None => {
                proof {
                    lemma_hex_none_extends(digits, k);
                }
                return None;
            },
            Some(d) => {
                let nv = v * 16 + d;
                assert(hex_value(digits.take(k)) == Some(nv as nat));
                if nv >= 256 {
                    proof {
                        lemma_hex_big_extends(digits, k);
                    }
                    return None;
                }
                v = nv;
            },
        }
        i = i + 1;
    }
    assert(digits.take(cs.len() - start) =~= digits);
    Some(v as u8)
}

proof fn lemma_hex_none_extends(s: Seq<char>, k: int)
    requires
        0 <= k <= s.len(),
        hex_value(s.take(k)) is None,
    ensures
        hex_value(s) is None,
    decreases s.len() - k,
{
    if k < s.len() {
        assert(s.take(k + 1).drop_last() =~= s.take(k));
        lemma_hex_none_extends(s, k + 1);
    } else {
        assert(s.take(k) =~= s);
    }
}

proof fn lemma_hex_big_extends(s: Seq<char>, k: int)
    requires
        0 <= k <= s.len(),
        hex_value(s.take(k)) matches Some(v) ==> v >= 256,
    ensures
        hex_value(s) matches Some(v) ==> v >= 256,
    decreases s.len() - k,
{
    if k < s.len() {
        assert(s.take(k + 1).drop_last() =~= s.take(k));
        lemma_hex_big_extends(s, k + 1);
    } else {
        assert(s.take(k) =~= s);
    }
}


fn strip_hashes(s: &str) -> (r: String)
    ensures
        r@ == without_hashes(s@),
{
    let cs = crate::text::chars_of(s);
    let mut i: usize = 0;
    assert(s@.skip(0) =~= s@);
    while i < cs.len() && cs[i] == '#'
        invariant
            i <= cs@.len(),
            cs@ == s@,
            without_hashes(s@) == without_hashes(s@.skip(i as int)),
        decreases cs.len() - i,
    {
        assert(s@.skip(i as int).drop_first() =~= s@.skip(i + 1));
        i = i + 1;
    }
    let rest = crate::text::sub_chars(cs.as_slice(), i, cs.len());
    assert(rest@ =~= s@.skip(i as int));
    crate::text::string_of(rest.as_slice())
}

/// The color of a color text (see `color_of`).
pub fn parse_color(color: &str) -> (r: (u8, u8, u8))
    requires
        color_text_ok(color@),
    ensures
        r == color_of(color@),
{
    let c = strip_hashes(color);
    let n = crate::text::bytes_of(c.as_str()).len();
    if n >= 6 {
        let part = |a: usize, b: usize| -> (v: u8)
            requires
                a <= b <= n,
                byte_slice(c@, a as int, b as int) is Some,
            ensures
                v == (match hex_u8(byte_slice(c@, a as int, b as int)->0) {
                    Some(x) => x,
                    None => 0,
                }),
        {
            match crate::logconv::adif::byte_slice_exec(c.as_str(), a, b) {
                Some(t) => match hex_u8_exec(t.as_str()) {
                    Some(x) => x,
                    None => 0,
                },
                None => 0,
            }
        };
        (part(0, 2), part(2, 4), part(4, 6))
    } else {
        let lower = crate::text::to_lower(c.as_str());
        let l = lower.as_str();
        proof {
            reveal_strlit("red");
            reveal_strlit("blue");
            reveal_strlit("green");
            reveal_strlit("yellow");
            reveal_strlit("cyan");
            reveal_strlit("magenta");
            reveal_strlit("orange");
            reveal_strlit("purple");
        }
        if crate::text::str_eq(l, "red") {
            (255, 0, 0)
        } else if crate::text::str_eq(l, "blue") {
            (0, 0, 255)
        } else if crate::text::str_eq(l, "green") {
            (0, 255, 0)
        } else if crate::text::str_eq(l, "yellow") {
            (255, 255, 0)
        } else if crate::text::str_eq(l, "cyan") {
            (0, 255, 255)
        } else if crate::text::str_eq(l, "magenta") {
            (255, 0, 255)
        } else if crate::text::str_eq(l, "orange") {
            (255, 165, 0)
        } else if crate::text::str_eq(l, "purple") {
            (128, 0, 128)
        } else {
            (0, 0, 0)
        }
    }
}


/// The words of a line: its pieces between white space, as
/// `str::split_whitespace` gives them.
pub open spec fn line_words(s: Seq<char>) -> Seq<Seq<char>> {
    split_when(s, sep_pred(SepKind::Space)).filter(|w: Seq<char>| w.len() > 0)
}

/// A spot line read: time, SNR, reporter, distance (km) and azimuth.
pub type SpotFields = (int, i32, Seq<char>, i32, i32);

/// A spot line: 13 words, the first two a time (see `wspr_time`); the SNR
/// is the 5th word, the reporter the 9th, the distance the 11th and the
/// azimuth the 12th (0 where a number does not read).
pub open spec fn spot_line_of(line: Seq<char>) -> Option<SpotFields> {
    let w = line_words(line);
    if w.len() == 13 {
        match wspr_time(w[0] + " "@ + w[1]) {
            Some(ts) => Some((ts, parse_i32_or(w[4], 0), w[8], parse_i32_or(w[10], 0), parse_i32_or(w[11], 0))),
            None => None,
        }
    } else {
        None
    }
}

/// The spot lines among some lines, in order.
pub open spec fn spot_lines_of(ls: Seq<Seq<char>>) -> Seq<SpotFields>
    decreases ls.len(),
{
    if ls.len() == 0 {
        Seq::empty()
    } else {
        let prev = spot_lines_of(ls.drop_last());
        match spot_line_of(ls.last()) {
            Some(x) => prev.push(x),
            None => prev,
        }
    }
}

/// A spot line as the chart holds it.
#[derive(Debug, Clone)]
pub struct SpotLine {
    pub ts: i64,
    pub snr: i32,
    pub repo: String,
    pub km: i32,
    pub az: i32,
}

/// The fields of spot lines.
pub open spec fn spot_views(v: Seq<SpotLine>) -> Seq<SpotFields> {
    v.map_values(|x: SpotLine| (x.ts as int, x.snr, x.repo@, x.km, x.az))
}

fn spot_line_exec(line: &Vec<char>) -> (r: Option<SpotLine>)
    ensures
        match r {
            Some(x) => spot_line_of(line@) == Some((x.ts as int, x.snr, x.repo@, x.km, x.az)),
            None => spot_line_of(line@) is None,
        },
{
    let pieces = crate::text::split(line.as_slice(), SepKind::Space);
    let ghost pv = crate::text::views(pieces@);
    let ghost pred = |w: Seq<char>| w.len() > 0;
    let mut ws: Vec<String> = Vec::new();
    let mut i: usize = 0;
    proof {
        reveal(Seq::filter);
        assert(pv.take(0) =~= Seq::<Seq<char>>::empty());
    }
    while i < pieces.len()
        invariant
            i <= pieces@.len(),
            pv == crate::text::views(pieces@),
            pred == (|w: Seq<char>| w.len() > 0),
            crate::text::strs(ws@) == pv.take(i as int).filter(pred),
        decreases pieces.len() - i,
    {
        assert(pv[i as int] == pieces@[i as int]@);
        proof {
            assert(pv.take(i + 1) =~= pv.take(i as int).push(pv[i as int]));
            pv.take(i as int).lemma_filter_push(pv[i as int], pred);
        }
        if pieces[i].len() > 0 {
            let ghost before = crate::text::strs(ws@);
            ws.push(crate::text::string_of(pieces[i].as_slice()));
            assert(crate::text::strs(ws@) =~= before.push(pv[i as int]));
        }
        i = i + 1;
    }
    assert(pv.take(pieces@.len() as int) =~= pv);
    let ghost w = crate::text::strs(ws@);
    if ws.len() != 13 {
        return None;
    }
    assert(w[0] == ws@[0]@ && w[1] == ws@[1]@ && w[4] == ws@[4]@ && w[8] == ws@[8]@ && w[10] == ws@[10]@
        && w[11] == ws@[11]@);
    let mut dt = crate::text::copy_str(ws[0].as_str());
    dt.append(" ");
    dt.append(ws[1].as_str());
    match parse_datetime(dt.as_str()) {
        Some(ts) => Some(
            SpotLine {
                ts,
                snr: crate::logconv::adif::parse_i32_or_exec(ws[4].as_str(), 0),
                repo: crate::text::copy_str(ws[8].as_str()),
                km: crate::logconv::adif::parse_i32_or_exec(ws[10].as_str(), 0),
                az: crate::logconv::adif::parse_i32_or_exec(ws[11].as_str(), 0),
            },
        ),
        None => None,
    }
}

/// The spot lines of a text (see `spot_lines_of`).
pub fn parse_spot_lines(text: &str) -> (r: Vec<SpotLine>)
    ensures
        spot_views(r@) == spot_lines_of(lines_of(text@)),
{
    let cs = crate::text::chars_of(text);
    let ls = crate::text::lines(cs.as_slice());
    let ghost lv = crate::text::views(ls@);
    let mut r: Vec<SpotLine> = Vec::new();
    let mut i: usize = 0;
    assert(lv.take(0) =~= Seq::<Seq<char>>::empty());
    assert(spot_views(r@) =~= Seq::<SpotFields>::empty());
    while i < ls.len()
        invariant
            i <= ls@.len(),
            lv == crate::text::views(ls@),
            lv == lines_of(text@),
            spot_views(r@) == spot_lines_of(lv.take(i as int)),
        decreases ls.len() - i,
    {
        assert(lv[i as int] == ls@[i as int]@);
        assert(lv.take(i + 1).drop_last() =~= lv.take(i as int));
        match spot_line_exec(&ls[i]) {
            Some(x) => {
                let ghost before = spot_views(r@);
                r.push(x);
                assert(spot_views(r@) =~= before.push((x.ts as int, x.snr, x.repo@, x.km, x.az)));
            },
            None => {},
        }
        i = i + 1;
    }
    assert(lv.take(ls@.len() as int) =~= lv);
    r
}


/// Stable insertion of `x` by `key`: after every element whose key is not
/// greater.
pub open spec fn insert_by<T>(s: Seq<T>, x: T, key: spec_fn(T) -> int) -> Seq<T>
    decreases s.len(),
{
    if s.len() == 0 {
        seq![x]
    } else if key(s.last()) <= key(x) {
        s.push(x)
    } else {
        insert_by(s.drop_last(), x, key).push(s.last())
    }
}

/// The stable sort by `key` (as `sort_by_key` orders).
pub open spec fn sort_by<T>(s: Seq<T>, key: spec_fn(T) -> int) -> Seq<T>
    decreases s.len(),
{
    if s.len() == 0 {
        s
    } else {
        insert_by(sort_by(s.drop_last(), key), s.last(), key)
    }
}

proof fn lemma_insert_by_at<T>(s: Seq<T>, x: T, key: spec_fn(T) -> int, p: int)
    requires
        0 <= p <= s.len(),
        forall|q: int| p <= q < s.len() ==> key(#[trigger] s[q]) > key(x),
        p == 0 || key(s[p - 1]) <= key(x),
    ensures
        insert_by(s, x, key) == s.insert(p, x),
    decreases s.len(),
{
    if s.len() == 0 {
        assert(s.insert(p, x) =~= seq![x]);
    } else if p == s.len() {
        assert(s.insert(p, x) =~= s.push(x));
    } else {
        let d = s.drop_last();
        assert(key(s[s.len() - 1]) > key(x));
        assert forall|q: int| p <= q < d.len() implies key(#[trigger] d[q]) > key(x) by {
            assert(d[q] == s[q]);
        }
        if p > 0 {
            assert(d[p - 1] == s[p - 1]);
        }
        lemma_insert_by_at(d, x, key, p);
        assert(d.insert(p, x).push(s.last()) =~= s.insert(p, x));
    }
}

/// Inserting by key into a sequence ordered by that key keeps it ordered and
/// adds just the one element.
proof fn lemma_insert_by_ordered<T>(s: Seq<T>, x: T, key: spec_fn(T) -> int)
    requires
        forall|i: int, j: int| 0 <= i <= j < s.len() ==> key(#[trigger] s[i]) <= key(#[trigger] s[j]),
    ensures
        insert_by(s, x, key).len() == s.len() + 1,
        insert_by(s, x, key).to_multiset() == s.to_multiset().insert(x),
        forall|i: int, j: int| 0 <= i <= j < insert_by(s, x, key).len()
            ==> key(#[trigger] insert_by(s, x, key)[i]) <= key(#[trigger] insert_by(s, x, key)[j]),
    decreases s.len(),
{
    broadcast use vstd::seq_lib::group_to_multiset_ensures;
    if s.len() == 0 {
        assert(seq![x] =~= Seq::<T>::empty().push(x));
    } else if key(s.last()) <= key(x) {
        let r = s.push(x);
        assert forall|i: int, j: int| 0 <= i <= j < r.len() implies key(#[trigger] r[i]) <= key(#[trigger] r[j]) by {
            if j == s.len() {
                if i < s.len() {
                    assert(key(s[i]) <= key(s[s.len() - 1]));
                }
            }
        }
    } else {
        let d = s.drop_last();
        let last = s.last();
        assert(s =~= d.push(last));
        assert forall|i: int, j: int| 0 <= i <= j < d.len() implies key(#[trigger] d[i]) <= key(#[trigger] d[j]) by {
            assert(d[i] == s[i] && d[j] == s[j]);
        }
        lemma_insert_by_ordered(d, x, key);
        let r = insert_by(d, x, key);
        let out = r.push(last);
        assert forall|i: int| 0 <= i < r.len() implies key(#[trigger] r[i]) <= key(last) by {
            assert(r.contains(r[i]));
            assert(r.to_multiset().count(r[i]) > 0);
            if r[i] != x {
                assert(d.to_multiset().count(r[i]) > 0);
                assert(d.contains(r[i]));
                let k = choose|k: int| 0 <= k < d.len() && d[k] == r[i];
                assert(s[k] == d[k]);
                assert(key(s[k]) <= key(s[s.len() - 1]));
            }
        }
        assert forall|i: int, j: int| 0 <= i <= j < out.len() implies key(#[trigger] out[i]) <= key(#[trigger] out[j]) by {
            if j == r.len() {
                if i < r.len() {
                    assert(key(r[i]) <= key(last));
                }
            } else {
                assert(out[i] == r[i] && out[j] == r[j]);
            }
        }
    }
}

/// A stable sort by key orders its result by that key and keeps exactly
/// the elements it was given.
pub proof fn lemma_sort_by_ordered<T>(s: Seq<T>, key: spec_fn(T) -> int)
    ensures
        sort_by(s, key).to_multiset() == s.to_multiset(),
        forall|i: int, j: int| 0 <= i <= j < sort_by(s, key).len()
            ==> key(#[trigger] sort_by(s, key)[i]) <= key(#[trigger] sort_by(s, key)[j]),
    decreases s.len(),
{
    broadcast use vstd::seq_lib::group_to_multiset_ensures;
    if s.len() > 0 {
        let d = s.drop_last();
        lemma_sort_by_ordered(d, key);
        lemma_insert_by_ordered(sort_by(d, key), s.last(), key);
        assert(s =~= d.push(s.last()));
    }
}

/// The key of a spot line: its time.
pub open spec fn spot_key() -> spec_fn(SpotFields) -> int {
    |x: SpotFields| x.0
}

fn insert_spot(v: &mut Vec<SpotLine>, x: SpotLine)
    ensures
        spot_views(final(v)@) == insert_by(spot_views(old(v)@), (x.ts as int, x.snr, x.repo@, x.km, x.az), spot_key()),
{
    let ghost sv = spot_views(v@);
    let ghost xv = (x.ts as int, x.snr, x.repo@, x.km, x.az);
    let mut p: usize = v.len();
    while p > 0 && v[p - 1].ts > x.ts
        invariant
            p <= v@.len(),
            sv == spot_views(v@),
            xv == (x.ts as int, x.snr, x.repo@, x.km, x.az),
            forall|q: int| p <= q < sv.len() ==> (spot_key())(#[trigger] sv[q]) > (spot_key())(xv),
        decreases p,
    {
        assert(sv[p - 1] == (v@[p - 1].ts as int, v@[p - 1].snr, v@[p - 1].repo@, v@[p - 1].km, v@[p - 1].az));
        p = p - 1;
    }
    proof {
        if p > 0 {
            assert(sv[p - 1] == (v@[p - 1].ts as int, v@[p - 1].snr, v@[p - 1].repo@, v@[p - 1].km, v@[p - 1].az));
        }
        lemma_insert_by_at(sv, xv, spot_key(), p as int);
    }
    let ghost old_v = v@;
    v.insert(p, x);
    assert(spot_views(v@) =~= sv.insert(p as int, xv)) by {
        old_v.insert_ensures(p as int, x);
        sv.insert_ensures(p as int, xv);
    }
}

fn copy_line(x: &SpotLine) -> (r: SpotLine)
    ensures
        r.ts == x.ts && r.snr == x.snr && r.repo@ == x.repo@ && r.km == x.km && r.az == x.az,
{
    SpotLine { ts: x.ts, snr: x.snr, repo: crate::text::copy_str(x.repo.as_str()), km: x.km, az: x.az }
}

/// The spot lines within the distance range of a request, in time order.
pub open spec fn chart_spots(p: Seq<SpotFields>, min: i32, max: i32) -> Seq<SpotFields> {
    sort_by(p.filter(|x: SpotFields| min <= x.3 <= max), spot_key())
}

fn sorted_spots(lines: &Vec<SpotLine>, min: i32, max: i32) -> (r: Vec<SpotLine>)
    ensures
        spot_views(r@) == chart_spots(spot_views(lines@), min, max),
{
    let ghost lv = spot_views(lines@);
    let ghost pred = |x: SpotFields| min <= x.3 <= max;
    let mut r: Vec<SpotLine> = Vec::new();
    let mut i: usize = 0;
    proof {
        reveal(Seq::filter);
        assert(lv.take(0) =~= Seq::<SpotFields>::empty());
        assert(spot_views(r@) =~= Seq::<SpotFields>::empty());
    }
    while i < lines.len()
        invariant
            i <= lines@.len(),
            lv == spot_views(lines@),
            pred == (|x: SpotFields| min <= x.3 <= max),
            spot_views(r@) == sort_by(lv.take(i as int).filter(pred), spot_key()),
        decreases lines.len() - i,
    {
        let ghost xv = lv[i as int];
        assert(xv == (lines@[i as int].ts as int, lines@[i as int].snr, lines@[i as int].repo@, lines@[i as int].km, lines@[i as int].az));
        proof {
            assert(lv.take(i + 1) =~= lv.take(i as int).push(xv));
            lv.take(i as int).lemma_filter_push(xv, pred);
        }
        if min <= lines[i].km && lines[i].km <= max {
            let x = copy_line(&lines[i]);
            let ghost f = lv.take(i as int).filter(pred);
            assert(f.push(xv).drop_last() =~= f);
            insert_spot(&mut r, x);
        }
        i = i + 1;
    }
    assert(lv.take(lines@.len() as int) =~= lv);
    r
}


/// A time window read: label, color, start and end (Unix times).
pub type PlotView = (Seq<char>, (u8, u8, u8), int, int);

/// A time window whose start and end read.
pub open spec fn plot_of(c: PlotConfig) -> Option<PlotView> {
    match (wspr_time(c.from@), wspr_time(c.to@)) {
        (Some(f), Some(t)) => Some((c.label@, color_of(c.color@), f, t)),
        _ => None,
    }
}

/// The time windows that read, in order.
pub open spec fn plots_of(cs: Seq<PlotConfig>) -> Seq<PlotView>
    decreases cs.len(),
{
    if cs.len() == 0 {
        Seq::empty()
    } else {
        let prev = plots_of(cs.drop_last());
        match plot_of(cs.last()) {
            Some(x) => prev.push(x),
            None => prev,
        }
    }
}

/// The key of a time window: its start.
pub open spec fn plot_key() -> spec_fn(PlotView) -> int {
    |p: PlotView| p.2
}

/// The time windows of a chart, by start time.
pub open spec fn chart_plots(cs: Seq<PlotConfig>) -> Seq<PlotView> {
    sort_by(plots_of(cs), plot_key())
}

/// The color texts of the windows that read begin and end their
/// hexadecimal pairs between characters.
pub open spec fn plot_colors_ok(cs: Seq<PlotConfig>) -> bool {
    forall|i: int| 0 <= i < cs.len() && plot_of(#[trigger] cs[i]) is Some ==> color_text_ok(cs[i].color@)
}

/// A time window as the chart holds it.
#[derive(Debug)]
pub struct PlotHead {
    pub label: String,
    pub color: (u8, u8, u8),
    pub from: i64,
    pub to: i64,
}

/// The fields of time windows.
pub open spec fn head_views(v: Seq<PlotHead>) -> Seq<PlotView> {
    v.map_values(|x: PlotHead| (x.label@, x.color, x.from as int, x.to as int))
}

fn insert_head(v: &mut Vec<PlotHead>, x: PlotHead)
    ensures
        head_views(final(v)@) == insert_by(head_views(old(v)@), (x.label@, x.color, x.from as int, x.to as int), plot_key()),
{
    let ghost sv = head_views(v@);
    let ghost xv = (x.label@, x.color, x.from as int, x.to as int);
    let mut p: usize = v.len();
    while p > 0 && v[p - 1].from > x.from
        invariant
            p <= v@.len(),
            sv == head_views(v@),
            xv == (x.label@, x.color, x.from as int, x.to as int),
            forall|q: int| p <= q < sv.len() ==> (plot_key())(#[trigger] sv[q]) > (plot_key())(xv),
        decreases p,
    {
        assert(sv[p - 1] == (v@[p - 1].label@, v@[p - 1].color, v@[p - 1].from as int, v@[p - 1].to as int));
        p = p - 1;
    }
    proof {
        if p > 0 {
            assert(sv[p - 1] == (v@[p - 1].label@, v@[p - 1].color, v@[p - 1].from as int, v@[p - 1].to as int));
        }
        lemma_insert_by_at(sv, xv, plot_key(), p as int);
    }
    let ghost old_v = v@;
    v.insert(p, x);
    assert(head_views(v@) =~= sv.insert(p as int, xv)) by {
        old_v.insert_ensures(p as int, x);
        sv.insert_ensures(p as int, xv);
    }
}

fn sorted_plots(cs: &Vec<PlotConfig>) -> (r: Vec<PlotHead>)
    requires
        plot_colors_ok(cs@),
    ensures
        head_views(r@) == chart_plots(cs@),
{
    let mut r: Vec<PlotHead> = Vec::new();
    let mut i: usize = 0;
    assert(cs@.take(0) =~= Seq::<PlotConfig>::empty());
    assert(head_views(r@) =~= Seq::<PlotView>::empty());
    while i < cs.len()
        invariant
            i <= cs@.len(),
            plot_colors_ok(cs@),
            head_views(r@) == sort_by(plots_of(cs@.take(i as int)), plot_key()),
        decreases cs.len() - i,
    {
        assert(cs@.take(i + 1).drop_last() =~= cs@.take(i as int));
        assert(cs@.take(i + 1).last() == cs@[i as int]);
        let c = &cs[i];
        match (parse_datetime(c.from.as_str()), parse_datetime(c.to.as_str())) {
            (Some(from), Some(to)) => {
                assert(plot_of(cs@[i as int]) is Some);
                let color = parse_color(c.color.as_str());
                let h = PlotHead { label: crate::text::copy_str(c.label.as_str()), color, from, to };
                let ghost pv = plots_of(cs@.take(i as int));
                let ghost xv = (h.label@, h.color, h.from as int, h.to as int);
                assert(plots_of(cs@.take(i + 1)) == pv.push(xv));
                assert(pv.push(xv).drop_last() =~= pv);
                insert_head(&mut r, h);
            },
            _ => {},
        }
        i = i + 1;
    }
    assert(cs@.take(cs@.len() as int) =~= cs@);
    r
}


/// The window that the sweep reaches for a spot at time `ts`, from window
/// `k`: past every window that has started and ended before it.
pub open spec fn advance(ts: int, pl: Seq<PlotView>, k: int) -> int
    decreases pl.len() - k,
{
    if 0 <= k < pl.len() && ts >= pl[k].2 && ts > pl[k].3 {
        advance(ts, pl, k + 1)
    } else {
        k
    }
}

/// The window that the sweep has reached after the first `i` spots.
pub open spec fn sweep_at(s: Seq<SpotFields>, pl: Seq<PlotView>, i: int) -> int
    decreases i,
{
    if i <= 0 || i > s.len() {
        0
    } else {
        advance(s[i - 1].0, pl, sweep_at(s, pl, i - 1))
    }
}

/// The window that spot `i` falls in: the one the sweep reaches for it,
/// when it has started.
pub open spec fn plot_index(s: Seq<SpotFields>, pl: Seq<PlotView>, i: int) -> Option<int> {
    let k = sweep_at(s, pl, i + 1);
    if k < pl.len() && s[i].0 >= pl[k].2 {
        Some(k)
    } else {
        None
    }
}

/// The spots among the first `n` that fall in window `j`, by index.
pub open spec fn assigned_to(s: Seq<SpotFields>, pl: Seq<PlotView>, j: int, n: int) -> Seq<int>
    decreases n,
{
    if n <= 0 {
        Seq::empty()
    } else {
        let prev = assigned_to(s, pl, j, n - 1);
        if plot_index(s, pl, n - 1) == Some(j) {
            prev.push(n - 1)
        } else {
            prev
        }
    }
}

proof fn lemma_advance_range(ts: int, pl: Seq<PlotView>, k: int)
    requires
        0 <= k <= pl.len(),
    ensures
        k <= advance(ts, pl, k) <= pl.len(),
    decreases pl.len() - k,
{
    if 0 <= k < pl.len() && ts >= pl[k].2 && ts > pl[k].3 {
        lemma_advance_range(ts, pl, k + 1);
    }
}

proof fn lemma_sweep_range(s: Seq<SpotFields>, pl: Seq<PlotView>, i: int)
    requires
        0 <= i <= s.len(),
    ensures
        0 <= sweep_at(s, pl, i) <= pl.len(),
    decreases i,
{
    if i > 0 {
        lemma_sweep_range(s, pl, i - 1);
        lemma_advance_range(s[i - 1].0, pl, sweep_at(s, pl, i - 1));
    }
}

/// Indices as integers.
pub open spec fn ints(v: Seq<usize>) -> Seq<int> {
    v.map_values(|x: usize| x as int)
}

fn sweep(spots: &Vec<SpotLine>, heads: &Vec<PlotHead>) -> (r: (Vec<Vec<usize>>, usize))
    ensures
        r.0@.len() == heads@.len(),
        forall|j: int| 0 <= j < heads@.len() ==> ints(#[trigger] r.0@[j]@) == assigned_to(
            spot_views(spots@),
            head_views(heads@),
            j,
            spots@.len() as int,
        ),
        r.1 == sweep_at(spot_views(spots@), head_views(heads@), spots@.len() as int),
{
    let ghost sv = spot_views(spots@);
    let ghost pl = head_views(heads@);
    let mut idxs: Vec<Vec<usize>> = Vec::new();
    let mut j: usize = 0;
    while j < heads.len()
        invariant
            j <= heads@.len(),
            idxs@.len() == j,
            forall|q: int| 0 <= q < j ==> (#[trigger] idxs@[q])@.len() == 0,
        decreases heads.len() - j,
    {
        idxs.push(Vec::new());
        j = j + 1;
    }
    let mut k: usize = 0;
    let mut i: usize = 0;
    while i < spots.len()
        invariant
            i <= spots@.len(),
            sv == spot_views(spots@),
            pl == head_views(heads@),
            idxs@.len() == heads@.len(),
            k == sweep_at(sv, pl, i as int),
            k <= heads@.len(),
            forall|q: int| 0 <= q < heads@.len() ==> ints(#[trigger] idxs@[q]@) == assigned_to(sv, pl, q, i as int),
        decreases spots.len() - i,
    {
        let ts = spots[i].ts;
        assert(sv[i as int].0 == ts as int);
        let ghost k0 = k;
        while k < heads.len() && ts >= heads[k].from && ts > heads[k].to
            invariant
                k0 <= k <= heads@.len(),
                pl == head_views(heads@),
                advance(ts as int, pl, k0 as int) == advance(ts as int, pl, k as int),
            decreases heads.len() - k,
        {
            assert(pl[k as int].2 == heads@[k as int].from && pl[k as int].3 == heads@[k as int].to);
            k = k + 1;
        }
        proof {
            if k < heads.len() {
                assert(pl[k as int].2 == heads@[k as int].from && pl[k as int].3 == heads@[k as int].to);
            }
            assert(advance(ts as int, pl, k as int) == k);
            assert(sweep_at(sv, pl, i + 1) == k);
        }
        let ghost old_idxs = idxs@;
        if k < heads.len() && ts >= heads[k].from {
            assert(pl[k as int].2 == heads@[k as int].from);
            assert(plot_index(sv, pl, i as int) == Some(k as int));
            let ghost before = idxs@[k as int]@;
            idxs[k].push(i);
            proof {
                assert forall|q: int| 0 <= q < heads@.len() implies ints(#[trigger] idxs@[q]@) == assigned_to(sv, pl, q, i + 1) by {
                    if q == k {
                        assert(ints(idxs@[q]@) =~= ints(before).push(i as int));
                    } else {
                        assert(idxs@[q] == old_idxs[q]);
                    }
                }
            }
        } else {
            assert(plot_index(sv, pl, i as int) is None);
        }
        i = i + 1;
    }
    (idxs, k)
}


/// The distance of a reporter: that of its last spot line.
pub open spec fn reporter_km(p: Seq<SpotFields>, rp: Seq<char>) -> Option<i32>
    decreases p.len(),
{
    if p.len() == 0 {
        None
    } else if p.last().2 == rp {
        Some(p.last().3)
    } else {
        reporter_km(p.drop_last(), rp)
    }
}

fn reporter_km_exec(lines: &Vec<SpotLine>, rp: &str) -> (r: Option<i32>)
    ensures
        r == reporter_km(spot_views(lines@), rp@),
{
    let ghost lv = spot_views(lines@);
    let mut n: usize = lines.len();
    assert(lv.take(n as int) =~= lv);
    while n > 0
        invariant
            n <= lines@.len(),
            lv == spot_views(lines@),
            reporter_km(lv, rp@) == reporter_km(lv.take(n as int), rp@),
        decreases n,
    {
        let ghost t = lv.take(n as int);
        assert(t.last() == lv[n - 1]);
        assert(lv[n - 1] == (lines@[n - 1].ts as int, lines@[n - 1].snr, lines@[n - 1].repo@, lines@[n - 1].km, lines@[n - 1].az));
        if crate::text::str_eq(lines[n - 1].repo.as_str(), rp) {
            return Some(lines[n - 1].km);
        }
        assert(t.drop_last() =~= lv.take(n - 1));
        n = n - 1;
    }
    None
}

proof fn lemma_reporter_known(p: Seq<SpotFields>, i: int)
    requires
        0 <= i < p.len(),
    ensures
        reporter_km(p, p[i].2) is Some,
    decreases p.len(),
{
    if p.last().2 != p[i].2 {
        assert(i < p.len() - 1);
        assert(p.drop_last()[i] == p[i]);
        lemma_reporter_known(p.drop_last(), i);
    }
}

proof fn lemma_insert_by_contains<T>(s: Seq<T>, x: T, key: spec_fn(T) -> int, y: T)
    requires
        insert_by(s, x, key).contains(y),
    ensures
        s.contains(y) || y == x,
    decreases s.len(),
{
    if s.len() == 0 {
        assert(seq![x][0] == x);
    } else if key(s.last()) <= key(x) {
        let k = choose|k: int| 0 <= k < s.push(x).len() && s.push(x)[k] == y;
        if k < s.len() {
            assert(s[k] == y);
        }
    } else {
        let t = insert_by(s.drop_last(), x, key);
        let k = choose|k: int| 0 <= k < t.push(s.last()).len() && t.push(s.last())[k] == y;
        if k < t.len() {
            assert(t[k] == y);
            lemma_insert_by_contains(s.drop_last(), x, key, y);
            if s.drop_last().contains(y) {
                let q = choose|q: int| 0 <= q < s.drop_last().len() && s.drop_last()[q] == y;
                assert(s[q] == y);
            }
        } else {
            assert(s[s.len() - 1] == y);
        }
    }
}

proof fn lemma_sort_by_contains<T>(s: Seq<T>, key: spec_fn(T) -> int, y: T)
    requires
        sort_by(s, key).contains(y),
    ensures
        s.contains(y),
    decreases s.len(),
{
    if s.len() > 0 {
        lemma_insert_by_contains(sort_by(s.drop_last(), key), s.last(), key, y);
        if sort_by(s.drop_last(), key).contains(y) {
            lemma_sort_by_contains(s.drop_last(), key, y);
            let q = choose|q: int| 0 <= q < s.drop_last().len() && s.drop_last()[q] == y;
            assert(s[q] == y);
        } else {
            assert(s[s.len() - 1] == y);
        }
    }
}

proof fn lemma_chart_spot_known(p: Seq<SpotFields>, min: i32, max: i32, t: int)
    requires
        0 <= t < chart_spots(p, min, max).len(),
    ensures
        reporter_km(p, chart_spots(p, min, max)[t].2) is Some,
{
    let f = p.filter(|x: SpotFields| min <= x.3 <= max);
    let y = chart_spots(p, min, max)[t];
    assert(chart_spots(p, min, max).contains(y));
    lemma_sort_by_contains(f, spot_key(), y);
    p.lemma_filter_contains_rev(|x: SpotFields| min <= x.3 <= max, y);
    let i = choose|i: int| 0 <= i < p.len() && p[i] == y;
    lemma_reporter_known(p, i);
}


/// A spot line is charted exactly when its distance lies within the
/// requested range, `min` to `max` km both included; the charted spots are
/// in order of time.
pub proof fn lemma_charted_spots_in_range(p: Seq<SpotFields>, min: i32, max: i32)
    ensures
        forall|x: SpotFields| #[trigger] chart_spots(p, min, max).contains(x) <==> p.contains(x) && min <= x.3 <= max,
        forall|i: int, j: int| 0 <= i <= j < chart_spots(p, min, max).len()
            ==> (#[trigger] chart_spots(p, min, max)[i]).0 <= (#[trigger] chart_spots(p, min, max)[j]).0,
{
    let pred = |x: SpotFields| min <= x.3 <= max;
    let f = p.filter(pred);
    let s = chart_spots(p, min, max);
    lemma_sort_by_ordered(f, spot_key());
    p.filter_lemma(pred);
    assert forall|x: SpotFields| #[trigger] s.contains(x) <==> p.contains(x) && min <= x.3 <= max by {
        if s.contains(x) {
            lemma_sort_by_contains(f, spot_key(), x);
            p.lemma_filter_contains_rev(pred, x);
            let i = choose|i: int| 0 <= i < f.len() && f[i] == x;
            assert(pred(f[i]));
        }
        if p.contains(x) && min <= x.3 <= max {
            let i = choose|i: int| 0 <= i < p.len() && p[i] == x;
            assert(f.contains(p[i]));
            broadcast use vstd::seq_lib::group_to_multiset_ensures;
            assert(f.to_multiset().count(x) > 0);
            assert(s.to_multiset().count(x) > 0);
        }
    }
    assert forall|i: int, j: int| 0 <= i <= j < s.len() implies (#[trigger] s[i]).0 <= (#[trigger] s[j]).0 by {
        assert(spot_key()(s[i]) <= spot_key()(s[j]));
    }
}

/// The reporters of some spots, by index.
pub open spec fn repos_at(s: Seq<SpotFields>, idx: Seq<int>) -> Seq<Seq<char>> {
    idx.map_values(|t: int| s[t].2)
}

/// The SNRs of some spots, by index.
pub open spec fn snrs_at(s: Seq<SpotFields>, idx: Seq<int>) -> Seq<i32> {
    idx.map_values(|t: int| s[t].1)
}

/// The reporters' distances of some spots, by index.
pub open spec fn dists_at(p: Seq<SpotFields>, s: Seq<SpotFields>, idx: Seq<int>) -> Seq<i32> {
    idx.map_values(|t: int| match reporter_km(p, s[t].2) {
        Some(d) => d,
        None => 0,
    })
}

/// The SNRs of one reporter's spots among some spots, by index.
pub open spec fn samples(s: Seq<SpotFields>, idx: Seq<int>, rp: Seq<char>) -> Seq<i32>
    decreases idx.len(),
{
    if idx.len() == 0 {
        Seq::empty()
    } else {
        let prev = samples(s, idx.drop_last(), rp);
        if s[idx.last()].2 == rp {
            prev.push(s[idx.last()].1)
        } else {
            prev
        }
    }
}

fn plot_lists(lines: &Vec<SpotLine>, spots: &Vec<SpotLine>, idx: &Vec<usize>) -> (r: (Vec<String>, Vec<i32>, Vec<i32>))
    requires
        forall|t: int| 0 <= t < idx@.len() ==> (#[trigger] idx@[t]) < spots@.len(),
        forall|t: int| 0 <= t < spots@.len() ==> reporter_km(spot_views(lines@), (#[trigger] spot_views(spots@)[t]).2) is Some,
    ensures
        crate::text::strs(r.0@) == repos_at(spot_views(spots@), ints(idx@)),
        r.1@ == snrs_at(spot_views(spots@), ints(idx@)),
        r.2@ == dists_at(spot_views(lines@), spot_views(spots@), ints(idx@)),
{
    let ghost sv = spot_views(spots@);
    let ghost lv = spot_views(lines@);
    let mut repo: Vec<String> = Vec::new();
    let mut snr: Vec<i32> = Vec::new();
    let mut dist: Vec<i32> = Vec::new();
    let mut t: usize = 0;
    while t < idx.len()
        invariant
            t <= idx@.len(),
            sv == spot_views(spots@),
            lv == spot_views(lines@),
            forall|q: int| 0 <= q < idx@.len() ==> (#[trigger] idx@[q]) < spots@.len(),
            forall|q: int| 0 <= q < spots@.len() ==> reporter_km(lv, (#[trigger] sv[q]).2) is Some,
            crate::text::strs(repo@) == repos_at(sv, ints(idx@)).take(t as int),
            snr@ == snrs_at(sv, ints(idx@)).take(t as int),
            dist@ == dists_at(lv, sv, ints(idx@)).take(t as int),
        decreases idx.len() - t,
    {
        let i = idx[t];
        let sp = &spots[i];
        assert(sv[i as int] == (sp.ts as int, sp.snr, sp.repo@, sp.km, sp.az));
        assert(ints(idx@)[t as int] == i as int);
        let d = match reporter_km_exec(lines, sp.repo.as_str()) {
            Some(d) => d,
            None => 0,
        };
        let ghost r0 = crate::text::strs(repo@);
        repo.push(crate::text::copy_str(sp.repo.as_str()));
        snr.push(sp.snr);
        dist.push(d);
        assert(crate::text::strs(repo@) =~= r0.push(sp.repo@));
        assert(crate::text::strs(repo@) =~= repos_at(sv, ints(idx@)).take(t + 1));
        assert(snr@ =~= snrs_at(sv, ints(idx@)).take(t + 1));
        assert(dist@ =~= dists_at(lv, sv, ints(idx@)).take(t + 1));
        t = t + 1;
    }
    assert(repos_at(sv, ints(idx@)).take(idx@.len() as int) =~= repos_at(sv, ints(idx@)));
    assert(snrs_at(sv, ints(idx@)).take(idx@.len() as int) =~= snrs_at(sv, ints(idx@)));
    assert(dists_at(lv, sv, ints(idx@)).take(idx@.len() as int) =~= dists_at(lv, sv, ints(idx@)));
    (repo, snr, dist)
}


proof fn lemma_assigned_bounds(s: Seq<SpotFields>, pl: Seq<PlotView>, j: int, n: int)
    ensures
        forall|t: int| 0 <= t < assigned_to(s, pl, j, n).len() ==> 0 <= #[trigger] assigned_to(s, pl, j, n)[t] < n,
    decreases n,
{
    if n > 0 {
        lemma_assigned_bounds(s, pl, j, n - 1);
        let prev = assigned_to(s, pl, j, n - 1);
        let cur = assigned_to(s, pl, j, n);
        assert forall|t: int| 0 <= t < cur.len() implies 0 <= #[trigger] cur[t] < n by {
            if t < prev.len() {
                assert(cur[t] == prev[t]);
            }
        }
    }
}

/// The reporters heard in every one of some lists (none without lists).
pub open spec fn in_all(lists: Seq<Seq<Seq<char>>>) -> Set<Seq<char>> {
    Set::new(|rp: Seq<char>| lists.len() > 0 && forall|j: int| 0 <= j < lists.len() ==> #[trigger] lists[j].contains(rp))
}

/// String lists as plain text.
pub open spec fn str_lists(v: Seq<Vec<String>>) -> Seq<Seq<Seq<char>>> {
    v.map_values(|x: Vec<String>| crate::text::strs(x@))
}

fn common_of_lists(lists: &Vec<Vec<String>>) -> (r: Vec<String>)
    ensures
        crate::text::strs(r@).no_duplicates(),
        crate::text::strs(r@).to_set() == in_all(str_lists(lists@)),
{
    let ghost ls = str_lists(lists@);
    if lists.len() == 0 {
        let r: Vec<String> = Vec::new();
        assert(crate::text::strs(r@).to_set() =~= in_all(ls));
        return r;
    }
    assert(ls[0] == crate::text::strs(lists@[0]@));
    let cands = crate::award_calculator::distinct_strings(&lists[0]);
    let mut r: Vec<String> = Vec::new();
    let mut c: usize = 0;
    while c < cands.len()
        invariant
            c <= cands@.len(),
            lists@.len() > 0,
            ls == str_lists(lists@),
            ls[0] == crate::text::strs(lists@[0]@),
            crate::text::strs(cands@).no_duplicates(),
            crate::text::strs(cands@).to_set() == ls[0].to_set(),
            crate::text::strs(r@).no_duplicates(),
            forall|q: int| 0 <= q < r@.len() ==> exists|x: int| 0 <= x < c && crate::text::strs(cands@)[x] == #[trigger] crate::text::strs(r@)[q],
            forall|rp: Seq<char>| #[trigger] crate::text::strs(r@).contains(rp) <==> (in_all(ls).contains(rp) && crate::text::strs(cands@).take(c as int).contains(rp)),
        decreases cands.len() - c,
    {
        let ghost cs = crate::text::strs(cands@);
        let x = &cands[c];
        assert(cs[c as int] == x@);
        let mut j: usize = 0;
        let mut all = true;
        while j < lists.len()
            invariant_except_break
                j <= lists@.len(),
                all,
                ls == str_lists(lists@),
                forall|q: int| 0 <= q < j ==> (#[trigger] ls[q]).contains(x@),
            ensures
                all ==> forall|q: int| 0 <= q < ls.len() ==> (#[trigger] ls[q]).contains(x@),
                !all ==> exists|q: int| 0 <= q < ls.len() && !(#[trigger] ls[q]).contains(x@),
            decreases lists.len() - j,
        {
            assert(ls[j as int] == crate::text::strs(lists@[j as int]@));
            if !crate::award_calculator::has_str(&lists[j], x.as_str()) {
                all = false;
                break;
            }
            j = j + 1;
        }
        let ghost before = crate::text::strs(r@);
        proof {
            let t0 = cs.take(c as int);
            let t1 = cs.take(c + 1);
            assert(t1 =~= t0.push(x@));
            assert forall|y: Seq<char>| t1.contains(y) <==> t0.contains(y) || y == x@ by {
                if t1.contains(y) {
                    let k = choose|k: int| 0 <= k < t1.len() && t1[k] == y;
                    if k < c {
                        assert(t0[k] == y);
                    }
                }
                if t0.contains(y) {
                    let k = choose|k: int| 0 <= k < t0.len() && t0[k] == y;
                    assert(t1[k] == y);
                }
                if y == x@ {
                    assert(t1[c as int] == y);
                }
            }
            assert(!t0.contains(x@)) by {
                if t0.contains(x@) {
                    let k = choose|k: int| 0 <= k < t0.len() && t0[k] == x@;
                    assert(cs[k] == cs[c as int]);
                }
            }
            if all {
                assert(in_all(ls).contains(x@));
            } else {
                assert(!in_all(ls).contains(x@));
            }
        }
        if all {
            r.push(crate::text::copy_str(x.as_str()));
            proof {
                let after = crate::text::strs(r@);
                assert(after =~= before.push(x@));
                assert(!before.contains(x@)) by {
                    if before.contains(x@) {
                        let k = choose|k: int| 0 <= k < before.len() && before[k] == x@;
                    }
                }
                assert forall|y: Seq<char>| #[trigger] after.contains(y) <==> before.contains(y) || y == x@ by {
                    if after.contains(y) {
                        let k = choose|k: int| 0 <= k < after.len() && after[k] == y;
                        if k < before.len() {
                            assert(before[k] == y);
                        }
                    }
                    if before.contains(y) {
                        let k = choose|k: int| 0 <= k < before.len() && before[k] == y;
                        assert(after[k] == y);
                    }
                    if y == x@ {
                        assert(after[before.len() as int] == y);
                    }
                }
                assert forall|q: int| 0 <= q < after.len() implies exists|w: int| 0 <= w < c + 1 && cs[w] == #[trigger] after[q] by {
                    if q < before.len() {
                        assert(after[q] == before[q]);
                    } else {
                        assert(cs[c as int] == after[q]);
                    }
                }
            }
        } else {
            proof {
                assert forall|q: int| 0 <= q < before.len() implies exists|w: int| 0 <= w < c + 1 && cs[w] == #[trigger] before[q] by {
                    let w = choose|w: int| 0 <= w < c && cs[w] == before[q];
                }
            }
        }
        c = c + 1;
    }
    proof {
        let cs = crate::text::strs(cands@);
        assert(cs.take(cands@.len() as int) =~= cs);
        assert forall|rp: Seq<char>| crate::text::strs(r@).to_set().contains(rp) <==> in_all(ls).contains(rp) by {
            if in_all(ls).contains(rp) {
                assert(ls[0].contains(rp));
                assert(ls[0].to_set().contains(rp));
                assert(cs.to_set().contains(rp));
            }
        }
        assert(crate::text::strs(r@).to_set() =~= in_all(ls));
    }
    r
}


/// The distance of a reporter, 0 when it has no spot line.
pub open spec fn reporter_dist(p: Seq<SpotFields>, rp: Seq<char>) -> i32 {
    match reporter_km(p, rp) {
        Some(d) => d,
        None => 0,
    }
}

/// The names of reporter entries.
pub open spec fn entry_names(v: Seq<(String, i32)>) -> Seq<Seq<char>> {
    v.map_values(|x: (String, i32)| x.0@)
}

fn sort_by_distance(lines: &Vec<SpotLine>, rs: &Vec<String>) -> (r: Vec<(String, i32)>)
    requires
        crate::text::strs(rs@).no_duplicates(),
    ensures
        entry_names(r@).no_duplicates(),
        entry_names(r@).to_set() == crate::text::strs(rs@).to_set(),
        forall|q: int| 0 <= q < r@.len() ==> (#[trigger] r@[q]).1 == reporter_dist(spot_views(lines@), r@[q].0@),
        forall|a: int, b: int| 0 <= a < b < r@.len() ==> (#[trigger] r@[a]).1 <= (#[trigger] r@[b]).1,
{
    let ghost lv = spot_views(lines@);
    let ghost rv = crate::text::strs(rs@);
    let mut r: Vec<(String, i32)> = Vec::new();
    let mut k: usize = 0;
    assert(entry_names(r@).to_set() =~= rv.take(0).to_set());
    while k < rs.len()
        invariant
            k <= rs@.len(),
            lv == spot_views(lines@),
            rv == crate::text::strs(rs@),
            rv.no_duplicates(),
            r@.len() == k,
            entry_names(r@).no_duplicates(),
            entry_names(r@).to_set() == rv.take(k as int).to_set(),
            forall|q: int| 0 <= q < r@.len() ==> (#[trigger] r@[q]).1 == reporter_dist(lv, r@[q].0@),
            forall|a: int, b: int| 0 <= a < b < r@.len() ==> (#[trigger] r@[a]).1 <= (#[trigger] r@[b]).1,
        decreases rs.len() - k,
    {
        assert(rv[k as int] == rs@[k as int]@);
        let d = match reporter_km_exec(lines, rs[k].as_str()) {
            Some(d) => d,
            None => 0,
        };
        let mut p: usize = r.len();
        while p > 0 && r[p - 1].1 > d
            invariant
                p <= r@.len(),
                forall|q: int| p <= q < r@.len() ==> (#[trigger] r@[q]).1 > d,
            decreases p,
        {
            p = p - 1;
        }
        let ghost before = r@;
        let name = crate::text::copy_str(rs[k].as_str());
        let ghost xn = name@;
        r.insert(p, (name, d));
        proof {
            let after = r@;
            before.insert_ensures(p as int, after[p as int]);
            assert(after == before.insert(p as int, after[p as int]));
            assert(after[p as int].0@ == rv[k as int]);
            let bn = entry_names(before);
            let an = entry_names(after);
            assert(an =~= bn.insert(p as int, rv[k as int]));
            bn.insert_ensures(p as int, rv[k as int]);
            let t0 = rv.take(k as int);
            let t1 = rv.take(k + 1);
            assert(t1 =~= t0.push(rv[k as int]));
            assert(!bn.contains(rv[k as int])) by {
                if bn.contains(rv[k as int]) {
                    assert(bn.to_set().contains(rv[k as int]));
                    assert(t0.to_set().contains(rv[k as int]));
                    let w = choose|w: int| 0 <= w < t0.len() && t0[w] == rv[k as int];
                    assert(rv[w] == rv[k as int]);
                }
            }
            lemma_insert_members(bn, p as int, rv[k as int]);
            assert forall|y: Seq<char>| an.to_set().contains(y) == t1.to_set().contains(y) by {
                if t1.contains(y) {
                    let w = choose|w: int| 0 <= w < t1.len() && t1[w] == y;
                    if w < k {
                        assert(t0[w] == y);
                        assert(t0.to_set().contains(y));
                    }
                }
                if t0.contains(y) {
                    let w = choose|w: int| 0 <= w < t0.len() && t0[w] == y;
                    assert(t1[w] == y);
                }
                if an.contains(y) && y != rv[k as int] {
                    assert(bn.contains(y));
                    assert(bn.to_set().contains(y));
                    assert(t0.to_set().contains(y));
                    let w = choose|w: int| 0 <= w < t0.len() && t0[w] == y;
                    assert(t1[w] == y);
                }
                if y == rv[k as int] {
                    assert(t1[k as int] == y);
                }
            }
            assert(an.to_set() =~= t1.to_set());
            assert forall|i: int, j: int| 0 <= i < an.len() && 0 <= j < an.len() && i != j implies an[i] != an[j] by {
                if i == p || j == p {
                    let o = if i == p { j } else { i };
                    let oo = if o < p { o } else { o - 1 };
                    assert(an[o] == bn[oo]);
                } else {
                    let ii = if i < p { i } else { i - 1 };
                    let jj = if j < p { j } else { j - 1 };
                    assert(an[i] == bn[ii] && an[j] == bn[jj]);
                }
            }
            assert forall|q: int| 0 <= q < after.len() implies (#[trigger] after[q]).1 == reporter_dist(lv, after[q].0@) by {
                if q < p {
                    assert(after[q] == before[q]);
                } else if q > p {
                    assert(after[q] == before[q - 1]);
                }
            }
            assert forall|a: int, b: int| 0 <= a < b < after.len() implies (#[trigger] after[a]).1 <= (#[trigger] after[b]).1 by {
                if b < p {
                    assert(after[a] == before[a] && after[b] == before[b]);
                } else if b == p {
                    assert(after[a] == before[a]);
                } else if a > p {
                    assert(after[a] == before[a - 1] && after[b] == before[b - 1]);
                } else if a == p {
                    assert(after[b] == before[b - 1]);
                } else {
                    assert(after[a] == before[a] && after[b] == before[b - 1]);
                    assert(before[p as int].1 > d);
                }
            }
        }
        k = k + 1;
    }
    assert(rv.take(rs@.len() as int) =~= rv);
    r
}


fn samples_exec(spots: &Vec<SpotLine>, idx: &Vec<usize>, rp: &str) -> (r: Vec<i32>)
    requires
        forall|t: int| 0 <= t < idx@.len() ==> (#[trigger] idx@[t]) < spots@.len(),
    ensures
        r@ == samples(spot_views(spots@), ints(idx@), rp@),
{
    let ghost sv = spot_views(spots@);
    let mut r: Vec<i32> = Vec::new();
    let mut t: usize = 0;
    assert(ints(idx@).take(0) =~= Seq::<int>::empty());
    while t < idx.len()
        invariant
            t <= idx@.len(),
            sv == spot_views(spots@),
            forall|q: int| 0 <= q < idx@.len() ==> (#[trigger] idx@[q]) < spots@.len(),
            r@ == samples(sv, ints(idx@).take(t as int), rp@),
        decreases idx.len() - t,
    {
        let i = idx[t];
        assert(sv[i as int] == (spots@[i as int].ts as int, spots@[i as int].snr, spots@[i as int].repo@, spots@[i as int].km, spots@[i as int].az));
        assert(ints(idx@).take(t + 1).drop_last() =~= ints(idx@).take(t as int));
        assert(ints(idx@).take(t + 1).last() == i as int);
        if crate::text::str_eq(spots[i].repo.as_str(), rp) {
            r.push(spots[i].snr);
        }
        t = t + 1;
    }
    assert(ints(idx@).take(idx@.len() as int) =~= ints(idx@));
    r
}

/// One window of a chart: its label, color and times; the reporter, SNR and
/// reporter distance of each spot in it; and, for the windows that the
/// sweep reached, the distance and SNRs of each common reporter.
#[derive(Debug)]
pub struct WsprPlot {
    pub label: String,
    pub color: (u8, u8, u8),
    pub from: i64,
    pub to: i64,
    pub repo: Vec<String>,
    pub dist: Vec<i32>,
    pub snr: Vec<i32>,
    pub avgdist: Vec<i32>,
    pub avgsnr: Vec<Vec<i32>>,
}

/// The data of a chart: its windows, the reporters common to all of them by
/// distance, and the ranges of distance and SNR over all windows.
#[derive(Debug)]
pub struct WsprChart {
    pub plots: Vec<WsprPlot>,
    pub common: Vec<String>,
    pub min_dist: i32,
    pub max_dist: i32,
    pub min_snr: i32,
    pub max_snr: i32,
}

/// The smallest of some values and `init`.
pub open spec fn fold_min(v: Seq<i32>, init: i32) -> i32
    decreases v.len(),
{
    if v.len() == 0 {
        init
    } else {
        let m = fold_min(v.drop_last(), init);
        if v.last() < m { v.last() } else { m }
    }
}

/// The largest of some values and `init`.
pub open spec fn fold_max(v: Seq<i32>, init: i32) -> i32
    decreases v.len(),
{
    if v.len() == 0 {
        init
    } else {
        let m = fold_max(v.drop_last(), init);
        if v.last() > m { v.last() } else { m }
    }
}

/// All the values of some lists, one list after the other.
pub open spec fn flat(v: Seq<Seq<i32>>) -> Seq<i32>
    decreases v.len(),
{
    if v.len() == 0 {
        Seq::empty()
    } else {
        flat(v.drop_last()) + v.last()
    }
}

/// The spot lines of a request.
pub open spec fn request_lines(req: WsprRequest) -> Seq<SpotFields> {
    spot_lines_of(lines_of(req.spots@))
}

/// The reporters heard in every window of a chart.
pub open spec fn common_reporters(s: Seq<SpotFields>, pl: Seq<PlotView>) -> Set<Seq<char>> {
    in_all(Seq::new(pl.len(), |j: int| repos_at(s, assigned_to(s, pl, j, s.len() as int))))
}

/// Window `j` of a chart holds what the request gives it.
pub open spec fn plot_ok(req: WsprRequest, cl: Seq<Seq<char>>, j: int, x: WsprPlot) -> bool {
    let p = request_lines(req);
    let s = chart_spots(p, req.min, req.max);
    let pl = chart_plots(req.plots@);
    let f = sweep_at(s, pl, s.len() as int);
    let idx = assigned_to(s, pl, j, s.len() as int);
    &&& (x.label@, x.color, x.from as int, x.to as int) == pl[j]
    &&& crate::text::strs(x.repo@) == repos_at(s, idx)
    &&& x.snr@ == snrs_at(s, idx)
    &&& x.dist@ == dists_at(p, s, idx)
    &&& x.avgdist@ == (if j < f { cl.map_values(|rp: Seq<char>| reporter_dist(p, rp)) } else { Seq::empty() })
    &&& x.avgsnr@.map_values(|v: Vec<i32>| v@) == (if j < f { cl.map_values(|rp: Seq<char>| samples(s, idx, rp)) } else { Seq::empty() })
}

/// The data of the chart of a request: the windows that read, by start time,
/// each with the spots of the request's distance range that the time sweep
/// puts in it (see `plot_ok`); the reporters common to all windows, by
/// distance; and the smallest and largest distance and SNR over all windows
/// (0 and 10000 km, -30 and 10 dB where there are none).
pub open spec fn chart_ok(req: WsprRequest, c: WsprChart) -> bool {
    let p = request_lines(req);
    let s = chart_spots(p, req.min, req.max);
    let pl = chart_plots(req.plots@);
    let cl = crate::text::strs(c.common@);
    let dists = flat(c.plots@.map_values(|x: WsprPlot| x.dist@));
    let snrs = flat(c.plots@.map_values(|x: WsprPlot| x.snr@));
    &&& c.plots@.len() == pl.len()
    &&& forall|j: int| 0 <= j < pl.len() ==> plot_ok(req, cl, j, #[trigger] c.plots@[j])
    &&& cl.no_duplicates()
    &&& cl.to_set() == common_reporters(s, pl)
    &&& forall|a: int, b: int| 0 <= a < b < cl.len() ==> reporter_dist(p, #[trigger] cl[a]) <= reporter_dist(p, #[trigger] cl[b])
    &&& c.min_dist == (if fold_min(dists, i32::MAX) == i32::MAX { 0i32 } else { fold_min(dists, i32::MAX) })
    &&& c.max_dist == (if fold_max(dists, i32::MIN) == i32::MIN { 10000i32 } else { fold_max(dists, i32::MIN) })
    &&& c.min_snr == (if fold_min(snrs, i32::MAX) == i32::MAX { -30i32 } else { fold_min(snrs, i32::MAX) })
    &&& c.max_snr == (if fold_max(snrs, i32::MIN) == i32::MIN { 10i32 } else { fold_max(snrs, i32::MIN) })
}


/// Indices below `n`.
pub open spec fn idx_in_range(v: Vec<usize>, n: int) -> bool {
    forall|t: int| 0 <= t < v@.len() ==> (#[trigger] v@[t]) < n
}

fn append_all(out: &mut Vec<i32>, v: &Vec<i32>)
    ensures
        final(out)@ == old(out)@ + v@,
{
    let mut i: usize = 0;
    while i < v.len()
        invariant
            i <= v@.len(),
            out@ == old(out)@ + v@.take(i as int),
        decreases v.len() - i,
    {
        out.push(v[i]);
        i = i + 1;
        assert(out@ =~= old(out)@ + v@.take(i as int));
    }
    assert(v@.take(v@.len() as int) =~= v@);
}

fn min_max(v: &Vec<i32>) -> (r: (i32, i32))
    ensures
        r.0 == fold_min(v@, i32::MAX),
        r.1 == fold_max(v@, i32::MIN),
{
    let mut lo: i32 = i32::MAX;
    let mut hi: i32 = i32::MIN;
    let mut i: usize = 0;
    assert(v@.take(0) =~= Seq::<i32>::empty());
    while i < v.len()
        invariant
            i <= v@.len(),
            lo == fold_min(v@.take(i as int), i32::MAX),
            hi == fold_max(v@.take(i as int), i32::MIN),
        decreases v.len() - i,
    {
        assert(v@.take(i + 1).drop_last() =~= v@.take(i as int));
        assert(v@.take(i + 1).last() == v@[i as int]);
        if v[i] < lo {
            lo = v[i];
        }
        if v[i] > hi {
            hi = v[i];
        }
        i = i + 1;
    }
    assert(v@.take(v@.len() as int) =~= v@);
    (lo, hi)
}

/// The data of the chart of a request (see `chart_ok`).
#[verifier::rlimit(60)]
pub fn wspr_chart(request: &WsprRequest) -> (r: WsprChart)
    requires
        plot_colors_ok(request.plots@),
    ensures
        chart_ok(*request, r),
{
    let lines = parse_spot_lines(request.spots.as_str());
    let ghost p = spot_views(lines@);
    let spots = sorted_spots(&lines, request.min, request.max);
    let ghost sv = spot_views(spots@);
    let heads = sorted_plots(&request.plots);
    let ghost pl = head_views(heads@);
    let (idxs, f) = sweep(&spots, &heads);
    proof {
        assert forall|t: int| 0 <= t < spots@.len() implies reporter_km(p, (#[trigger] sv[t]).2) is Some by {
            lemma_chart_spot_known(p, request.min, request.max, t);
        }
        assert forall|j: int| 0 <= j < heads@.len() implies idx_in_range(#[trigger] idxs@[j], spots@.len() as int) by {
            lemma_assigned_bounds(sv, pl, j, sv.len() as int);
            assert forall|t: int| 0 <= t < idxs@[j]@.len() implies (#[trigger] idxs@[j]@[t]) < spots@.len() by {
                assert(ints(idxs@[j]@)[t] == idxs@[j]@[t] as int);
            }
        }
    }
    let mut repos: Vec<Vec<String>> = Vec::new();
    let mut j: usize = 0;
    while j < heads.len()
        invariant
            j <= heads@.len(),
            idxs@.len() == heads@.len(),
            sv == spot_views(spots@),
            p == spot_views(lines@),
            pl == head_views(heads@),
            forall|t: int| 0 <= t < spots@.len() ==> reporter_km(p, (#[trigger] sv[t]).2) is Some,
            forall|q: int| 0 <= q < heads@.len() ==> idx_in_range(#[trigger] idxs@[q], spots@.len() as int),
            forall|q: int| 0 <= q < heads@.len() ==> ints(#[trigger] idxs@[q]@) == assigned_to(sv, pl, q, spots@.len() as int),
            repos@.len() == j,
            forall|q: int| 0 <= q < j ==> crate::text::strs((#[trigger] repos@[q])@) == repos_at(sv, assigned_to(sv, pl, q, sv.len() as int)),
        decreases heads.len() - j,
    {
        let (r, _, _) = plot_lists(&lines, &spots, &idxs[j]);
        repos.push(r);
        j = j + 1;
    }
    proof {
        assert(str_lists(repos@) =~= Seq::new(pl.len(), |q: int| repos_at(sv, assigned_to(sv, pl, q, sv.len() as int))));
    }
    let common = common_of_lists(&repos);
    let cl = sort_by_distance(&lines, &common);
    let mut names: Vec<String> = Vec::new();
    let mut k: usize = 0;
    while k < cl.len()
        invariant
            k <= cl@.len(),
            crate::text::strs(names@) == entry_names(cl@).take(k as int),
        decreases cl.len() - k,
    {
        let ghost before = crate::text::strs(names@);
        names.push(crate::text::copy_str(cl[k].0.as_str()));
        assert(entry_names(cl@)[k as int] == cl@[k as int].0@);
        assert(crate::text::strs(names@) =~= before.push(cl@[k as int].0@));
        assert(crate::text::strs(names@) =~= entry_names(cl@).take(k + 1));
        k = k + 1;
    }
    assert(entry_names(cl@).take(cl@.len() as int) =~= entry_names(cl@));
    let ghost cn = entry_names(cl@);
    let mut plots: Vec<WsprPlot> = Vec::new();
    let mut all_dist: Vec<i32> = Vec::new();
    let mut all_snr: Vec<i32> = Vec::new();
    j = 0;
    assert(plots@.map_values(|x: WsprPlot| x.dist@) =~= Seq::<Seq<i32>>::empty());
    assert(plots@.map_values(|x: WsprPlot| x.snr@) =~= Seq::<Seq<i32>>::empty());
    while j < heads.len()
        invariant
            j <= heads@.len(),
            idxs@.len() == heads@.len(),
            sv == spot_views(spots@),
            p == spot_views(lines@),
            pl == head_views(heads@),
            f == sweep_at(sv, pl, spots@.len() as int),
            cn == entry_names(cl@),
            crate::text::strs(names@) == cn,
            forall|q: int| 0 <= q < cl@.len() ==> (#[trigger] cl@[q]).1 == reporter_dist(p, cl@[q].0@),
            forall|t: int| 0 <= t < spots@.len() ==> reporter_km(p, (#[trigger] sv[t]).2) is Some,
            forall|q: int| 0 <= q < heads@.len() ==> idx_in_range(#[trigger] idxs@[q], spots@.len() as int),
            forall|q: int| 0 <= q < heads@.len() ==> ints(#[trigger] idxs@[q]@) == assigned_to(sv, pl, q, spots@.len() as int),
            plots@.len() == j,
            forall|q: int| 0 <= q < j ==> plot_ok(*request, cn, q, #[trigger] plots@[q]),
            all_dist@ == flat(plots@.map_values(|x: WsprPlot| x.dist@)),
            all_snr@ == flat(plots@.map_values(|x: WsprPlot| x.snr@)),
            p == request_lines(*request),
            sv == chart_spots(p, request.min, request.max),
            pl == chart_plots(request.plots@),
        decreases heads.len() - j,
    {
        let (repo, snr, dist) = plot_lists(&lines, &spots, &idxs[j]);
        let mut avgdist: Vec<i32> = Vec::new();
        let mut avgsnr: Vec<Vec<i32>> = Vec::new();
        let ghost idx = assigned_to(sv, pl, j as int, sv.len() as int);
        if j < f {
            let mut k: usize = 0;
            while k < cl.len()
                invariant
                    k <= cl@.len(),
                    j < idxs@.len(),
                    sv == spot_views(spots@),
                    cn == entry_names(cl@),
                    ints(idxs@[j as int]@) == idx,
                    forall|t: int| 0 <= t < idxs@[j as int]@.len() ==> (#[trigger] idxs@[j as int]@[t]) < spots@.len(),
                    forall|q: int| 0 <= q < cl@.len() ==> (#[trigger] cl@[q]).1 == reporter_dist(p, cl@[q].0@),
                    avgdist@ == cn.take(k as int).map_values(|rp: Seq<char>| reporter_dist(p, rp)),
                    avgsnr@.map_values(|v: Vec<i32>| v@) == cn.take(k as int).map_values(|rp: Seq<char>| samples(sv, idx, rp)),
                decreases cl.len() - k,
            {
                assert(cn[k as int] == cl@[k as int].0@);
                avgdist.push(cl[k].1);
                let sm = samples_exec(&spots, &idxs[j], cl[k].0.as_str());
                assert(sm@ == samples(sv, idx, cn[k as int]));
                let ghost before = avgsnr@.map_values(|v: Vec<i32>| v@);
                avgsnr.push(sm);
                assert(avgsnr@.map_values(|v: Vec<i32>| v@) =~= before.push(samples(sv, idx, cn[k as int])));
                assert(avgdist@ =~= cn.take(k + 1).map_values(|rp: Seq<char>| reporter_dist(p, rp)));
                assert(avgsnr@.map_values(|v: Vec<i32>| v@) =~= cn.take(k + 1).map_values(|rp: Seq<char>| samples(sv, idx, rp)));
                k = k + 1;
            }
            assert(cn.take(cl@.len() as int) =~= cn);
        } else {
            assert(avgsnr@.map_values(|v: Vec<i32>| v@) =~= Seq::<Seq<i32>>::empty());
        }
        let h = &heads[j];
        assert(pl[j as int] == (h.label@, h.color, h.from as int, h.to as int));
        let ghost old_plots = plots@;
        append_all(&mut all_dist, &dist);
        append_all(&mut all_snr, &snr);
        plots.push(WsprPlot {
            label: crate::text::copy_str(h.label.as_str()),
            color: h.color,
            from: h.from,
            to: h.to,
            repo,
            dist,
            snr,
            avgdist,
            avgsnr,
        });
        proof {
            assert(plot_ok(*request, cn, j as int, plots@[j as int]));
            assert forall|q: int| 0 <= q < j + 1 implies plot_ok(*request, cn, q, #[trigger] plots@[q]) by {
                if q < j {
                    assert(plots@[q] == old_plots[q]);
                }
            }
            assert(plots@.map_values(|x: WsprPlot| x.dist@).drop_last() =~= old_plots.map_values(|x: WsprPlot| x.dist@));
            assert(plots@.map_values(|x: WsprPlot| x.snr@).drop_last() =~= old_plots.map_values(|x: WsprPlot| x.snr@));
        }
        j = j + 1;
    }
    let (min_d, max_d) = min_max(&all_dist);
    let (min_s, max_s) = min_max(&all_snr);
    WsprChart {
        plots,
        common: names,
        min_dist: if min_d == i32::MAX { 0 } else { min_d },
        max_dist: if max_d == i32::MIN { 10000 } else { max_d },
        min_snr: if min_s == i32::MAX { -30 } else { min_s },
        max_snr: if max_s == i32::MIN { 10 } else { max_s },
    }
}

} // verus!
