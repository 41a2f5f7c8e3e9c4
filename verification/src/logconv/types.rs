//! Common types and tables of log conversion.
use vstd::prelude::*;
use crate::num::{all_digits, digits_value, digits_saturating, pow10};
use crate::pattern::{captures, group_at, group_text, group_views};
use crate::text::{
    chars_of, copy_str, find_from, sep_pred, split, split_when, str_upper, string_of, to_upper,
    views, SepKind,
};

verus! {

/// A parsed QSO record, common to all input formats.
#[derive(Debug, Clone)]
pub struct QsoRecord {
    pub has_error: bool,
    pub error_message: String,
    pub date_error: String,
    pub time_error: String,
    pub band_error: String,
    pub callsign: String,
    pub operator: String,
    pub portable: String,
    pub iso_time: String,
    pub year: i32,
    pub month: u32,
    pub day: u32,
    pub hour: u32,
    pub minute: u32,
    pub timezone: String,
    pub rst_sent: String,
    pub rst_rcvd: String,
    pub freq: String,
    pub band: String,
    pub band_sota: String,
    pub band_wlen: String,
    pub mode: String,
    pub sub_mode: String,
    pub mode_airham: String,
    pub mode_sota: String,
    pub code: String,
    pub gridsquare: String,
    pub qsl: String,
    pub qsl_sent: i32,
    pub qsl_rcvd: i32,
    pub name: String,
    pub qth: String,
    pub remarks1: String,
    pub remarks2: String,
}

impl QsoRecord {
    /// Every field empty, zero or false.
    pub open spec fn is_blank(&self) -> bool {
        &&& !self.has_error
        &&& self.error_message@.len() == 0
        &&& self.date_error@.len() == 0
        &&& self.time_error@.len() == 0
        &&& self.band_error@.len() == 0
        &&& self.callsign@.len() == 0
        &&& self.operator@.len() == 0
        &&& self.portable@.len() == 0
        &&& self.iso_time@.len() == 0
        &&& self.year == 0 && self.month == 0 && self.day == 0
        &&& self.hour == 0 && self.minute == 0
        &&& self.timezone@.len() == 0
        &&& self.rst_sent@.len() == 0
        &&& self.rst_rcvd@.len() == 0
        &&& self.freq@.len() == 0
        &&& self.band@.len() == 0
        &&& self.band_sota@.len() == 0
        &&& self.band_wlen@.len() == 0
        &&& self.mode@.len() == 0
        &&& self.sub_mode@.len() == 0
        &&& self.mode_airham@.len() == 0
        &&& self.mode_sota@.len() == 0
        &&& self.code@.len() == 0
        &&& self.gridsquare@.len() == 0
        &&& self.qsl@.len() == 0
        &&& self.qsl_sent == 0 && self.qsl_rcvd == 0
        &&& self.name@.len() == 0
        &&& self.qth@.len() == 0
        &&& self.remarks1@.len() == 0
        &&& self.remarks2@.len() == 0
    }
}

impl Default for QsoRecord {
    fn default() -> (r: Self)
        ensures
            r.is_blank(),
    {
        QsoRecord {
            has_error: false,
            error_message: String::new(),
            date_error: String::new(),
            time_error: String::new(),
            band_error: String::new(),
            callsign: String::new(),
            operator: String::new(),
            portable: String::new(),
            iso_time: String::new(),
            year: 0,
            month: 0,
            day: 0,
            hour: 0,
            minute: 0,
            timezone: String::new(),
            rst_sent: String::new(),
            rst_rcvd: String::new(),
            freq: String::new(),
            band: String::new(),
            band_sota: String::new(),
            band_wlen: String::new(),
            mode: String::new(),
            sub_mode: String::new(),
            mode_airham: String::new(),
            mode_sota: String::new(),
            code: String::new(),
            gridsquare: String::new(),
            qsl: String::new(),
            qsl_sent: 0,
            qsl_rcvd: 0,
            name: String::new(),
            qth: String::new(),
            remarks1: String::new(),
            remarks2: String::new(),
        }
    }
}

/// Reference information found in a remarks text.
#[derive(Debug)]
pub struct RefInfo {
    pub sota: String,
    pub portable: String,
    pub wwff: Vec<String>,
    pub pota: Vec<String>,
    pub loc: String,
    pub loc_org: String,
    pub sat: String,
    pub sat_oscar: String,
    pub sat_org: String,
    pub sat_down: String,
    pub org: String,
}

/// The plain contents of a `RefInfo`.
pub struct RefInfoView {
    pub sota: Seq<char>,
    pub portable: Seq<char>,
    pub wwff: Seq<Seq<char>>,
    pub pota: Seq<Seq<char>>,
    pub loc: Seq<char>,
    pub loc_org: Seq<char>,
    pub sat: Seq<char>,
    pub sat_oscar: Seq<char>,
    pub sat_org: Seq<char>,
    pub sat_down: Seq<char>,
    pub org: Seq<char>,
}

impl View for RefInfo {
    type V = RefInfoView;

    open spec fn view(&self) -> RefInfoView {
        RefInfoView {
            sota: self.sota@,
            portable: self.portable@,
            wwff: crate::text::strs(self.wwff@),
            pota: crate::text::strs(self.pota@),
            loc: self.loc@,
            loc_org: self.loc_org@,
            sat: self.sat@,
            sat_oscar: self.sat_oscar@,
            sat_org: self.sat_org@,
            sat_down: self.sat_down@,
            org: self.org@,
        }
    }
}

/// The reference information of an empty text.
pub open spec fn empty_ref_info() -> RefInfoView {
    RefInfoView {
        sota: Seq::empty(),
        portable: Seq::empty(),
        wwff: Seq::empty(),
        pota: Seq::empty(),
        loc: Seq::empty(),
        loc_org: Seq::empty(),
        sat: Seq::empty(),
        sat_oscar: Seq::empty(),
        sat_org: Seq::empty(),
        sat_down: Seq::empty(),
        org: Seq::empty(),
    }
}

impl Default for RefInfo {
    fn default() -> (r: Self)
        ensures
            r@ == empty_ref_info(),
    {
        let r = RefInfo {
            sota: String::new(),
            portable: String::new(),
            wwff: Vec::new(),
            pota: Vec::new(),
            loc: String::new(),
            loc_org: String::new(),
            sat: String::new(),
            sat_oscar: String::new(),
            sat_org: String::new(),
            sat_down: String::new(),
            org: String::new(),
        };
        assert(r@.wwff =~= Seq::<Seq<char>>::empty());
        assert(r@.pota =~= Seq::<Seq<char>>::empty());
        r
    }
}

/// Conversion options.
#[derive(Debug, Clone)]
pub struct ConversionOptions {
    /// Source of my QTH (rmks1, rmks2, user_defined)
    pub my_qth: String,
    /// Source of his QTH (rmks1, rmks2, qth, none)
    pub his_qth: String,
    /// User-defined location
    pub location: String,
    /// Summit reference for SOTA
    pub summit: String,
    /// Park references for POTA
    pub park: Vec<String>,
    /// SOTA activator callsign
    pub sota_activator: String,
    /// POTA activator callsign
    pub pota_activator: String,
    /// POTA operator callsign
    pub pota_operator: String,
    /// WWFF activator callsign
    pub wwff_activator: String,
    /// WWFF operator callsign
    pub wwff_operator: String,
    /// WWFF reference
    pub wwff_ref: String,
}

impl Default for ConversionOptions {
    fn default() -> (r: Self)
        ensures
            r.my_qth@.len() == 0,
            r.his_qth@.len() == 0,
            r.location@.len() == 0,
            r.summit@.len() == 0,
            r.park@.len() == 0,
            r.sota_activator@.len() == 0,
            r.pota_activator@.len() == 0,
            r.pota_operator@.len() == 0,
            r.wwff_activator@.len() == 0,
            r.wwff_operator@.len() == 0,
            r.wwff_ref@.len() == 0,
    {
        ConversionOptions {
            my_qth: String::new(),
            his_qth: String::new(),
            location: String::new(),
            summit: String::new(),
            park: Vec::new(),
            sota_activator: String::new(),
            pota_activator: String::new(),
            pota_operator: String::new(),
            wwff_activator: String::new(),
            wwff_operator: String::new(),
            wwff_ref: String::new(),
        }
    }
}

/// Conversion result. `files` maps file names to contents, in the order in
/// which the files were first written; no name occurs twice.
#[derive(Debug, Clone)]
pub struct ConversionResult {
    pub status: String,
    pub error_log: Vec<String>,
    pub log_text: Vec<Vec<String>>,
    pub file_list: Vec<String>,
    pub files: Vec<(String, String)>,
}

impl Default for ConversionResult {
    fn default() -> (r: Self)
        ensures
            r.status@ == "OK"@,
            r.error_log@.len() == 0,
            r.log_text@.len() == 0,
            r.file_list@.len() == 0,
            r.files@.len() == 0,
    {
        ConversionResult {
            status: "OK".to_owned(),
            error_log: Vec::new(),
            log_text: Vec::new(),
            file_list: Vec::new(),
            files: Vec::new(),
        }
    }
}

/// A row of the frequency table: lower and upper edge in units of 10 Hz
/// (the MHz value times 100000), the AirHam band name, the SOTA band name and
/// the wavelength.
pub type BandRow = (u64, u64, &'static str, &'static str, &'static str);

/// The number of rows of the frequency table.
pub const BAND_ROWS: usize = 23;

/// The frequency table, amateur bands first, then Japanese non-amateur bands.
pub open spec fn band_row(i: int) -> BandRow {
    if i == 0 {
        (13570, 13780, "135kHz", "VLF", "2190m")
    } else if i == 1 {
        (47200, 47900, "475kHz", "VLF", "630m")
    } else if i == 2 {
        (180000, 191250, "1.9MHz", "1.8MHz", "160m")
    } else if i == 3 {
        (350000, 380500, "3.8MHz", "3.5MHz", "80m")
    } else if i == 4 {
        (700000, 720000, "7MHz", "7MHz", "40m")
    } else if i == 5 {
        (1000000, 1015000, "10MHz", "10MHz", "30m")
    } else if i == 6 {
        (1400000, 1435000, "14MHz", "14MHz", "20m")
    } else if i == 7 {
        (1800000, 1816800, "18MHz", "18MHz", "17m")
    } else if i == 8 {
        (2100000, 2145000, "21MHz", "21MHz", "15m")
    } else if i == 9 {
        (2400000, 2499000, "24MHz", "24MHz", "12m")
    } else if i == 10 {
        (2800000, 2970000, "28MHz", "28MHz", "10m")
    } else if i == 11 {
        (5000000, 5400000, "50MHz", "50MHz", "6m")
    } else if i == 12 {
        (14400000, 14600000, "144MHz", "144MHz", "2m")
    } else if i == 13 {
        (43000000, 44000000, "430MHz", "433MHz", "70cm")
    } else if i == 14 {
        (120000000, 130000000, "1200MHz", "1290MHz", "23cm")
    } else if i == 15 {
        (240000000, 245000000, "2400MHz", "2.3GHz", "13cm")
    } else if i == 16 {
        (565000000, 585000000, "5600MHz", "5.6GHz", "6cm")
    } else if i == 17 {
        (1000000000, 1025000000, "10.1GHz", "10GHz", "3cm")
    } else if i == 18 {
        (1045000000, 1050000000, "10.4GHz", "10GHz", "3cm")
    } else if i == 19 {
        (35100000, 35138125, "デジタル簡易(351MHz)", "", "")
    } else if i == 20 {
        (42100000, 45419375, "特定小電力(422MHz)", "", "")
    } else if i == 21 {
        (2696800, 2714400, "CB(27MHz)", "", "")
    } else {
        (14200000, 14700000, "デジタル小電力コミュニティ(142/146MHz)", "", "")
    }
}

/// Row `i` of the frequency table.
pub fn band_row_at(i: usize) -> (r: BandRow)
    requires
        i < BAND_ROWS,
    ensures
        r == band_row(i as int),
{
    match i {
        0 => (13570, 13780, "135kHz", "VLF", "2190m"),
        1 => (47200, 47900, "475kHz", "VLF", "630m"),
        2 => (180000, 191250, "1.9MHz", "1.8MHz", "160m"),
        3 => (350000, 380500, "3.8MHz", "3.5MHz", "80m"),
        4 => (700000, 720000, "7MHz", "7MHz", "40m"),
        5 => (1000000, 1015000, "10MHz", "10MHz", "30m"),
        6 => (1400000, 1435000, "14MHz", "14MHz", "20m"),
        7 => (1800000, 1816800, "18MHz", "18MHz", "17m"),
        8 => (2100000, 2145000, "21MHz", "21MHz", "15m"),
        9 => (2400000, 2499000, "24MHz", "24MHz", "12m"),
        10 => (2800000, 2970000, "28MHz", "28MHz", "10m"),
        11 => (5000000, 5400000, "50MHz", "50MHz", "6m"),
        12 => (14400000, 14600000, "144MHz", "144MHz", "2m"),
        13 => (43000000, 44000000, "430MHz", "433MHz", "70cm"),
        14 => (120000000, 130000000, "1200MHz", "1290MHz", "23cm"),
        15 => (240000000, 245000000, "2400MHz", "2.3GHz", "13cm"),
        16 => (565000000, 585000000, "5600MHz", "5.6GHz", "6cm"),
        17 => (1000000000, 1025000000, "10.1GHz", "10GHz", "3cm"),
        18 => (1045000000, 1050000000, "10.4GHz", "10GHz", "3cm"),
        19 => (35100000, 35138125, "デジタル簡易(351MHz)", "", ""),
        20 => (42100000, 45419375, "特定小電力(422MHz)", "", ""),
        21 => (2696800, 2714400, "CB(27MHz)", "", ""),
        _ => (14200000, 14700000, "デジタル小電力コミュニティ(142/146MHz)", "", ""),
    }
}

/// A plain decimal as `f64::from_str` reads it: an optional sign, then digits
/// with at most one point and at least one digit. Gives the sign, the digits
/// before the point and the digits after it.
pub open spec fn plain_decimal(s: Seq<char>) -> Option<(bool, Seq<char>, Seq<char>)> {
    let neg = s.len() > 0 && s[0] == '-';
    let body = if s.len() > 0 && (s[0] == '+' || s[0] == '-') { s.drop_first() } else { s };
    match find_from(body, seq!['.'], 0) {
        Some(k) => {
            let ip = body.take(k);
            let fp = body.skip(k + 1);
            if all_digits(ip) && all_digits(fp) && ip.len() + fp.len() > 0 {
                Some((neg, ip, fp))
            } else {
                None
            }
        },
        None => if body.len() > 0 && all_digits(body) {
            Some((neg, body, Seq::empty()))
        } else {
            None
        },
    }
}

/// The first five fraction digits, as a count of 10^-5 units.
pub open spec fn frac5(fp: Seq<char>) -> nat {
    if fp.len() >= 5 {
        digits_value(fp.take(5))
    } else {
        digits_value(fp) * pow10((5 - fp.len()) as nat)
    }
}

/// The magnitude of the decimal `ip.fp` times 100000, rounded down.
pub open spec fn scaled_floor(ip: Seq<char>, fp: Seq<char>) -> nat {
    digits_value(ip) * 100000 + frac5(fp)
}

/// Some fraction digit after the fifth is not zero.
pub open spec fn below_tail_nonzero(fp: Seq<char>) -> bool {
    exists|i: int| 5 <= i < fp.len() && fp[i] != '0'
}

/// The decimal `s` lies in `[lo, hi]` (both in 10^-5 units).
pub open spec fn decimal_in(s: Seq<char>, lo: nat, hi: nat) -> bool {
    match plain_decimal(s) {
        Some((neg, ip, fp)) => {
            let a = scaled_floor(ip, fp);
            !neg && lo <= a && (a < hi || (a == hi && !below_tail_nonzero(fp)))
        },
        None => false,
    }
}

/// The first row of the frequency table from row `i` on whose range holds `s`.
pub open spec fn band_index_from(s: Seq<char>, i: int) -> Option<int>
    decreases BAND_ROWS - i,
{
    if i < 0 || i >= BAND_ROWS {
        None
    } else if decimal_in(s, band_row(i).0 as nat, band_row(i).1 as nat) {
        Some(i)
    } else {
        band_index_from(s, i + 1)
    }
}

/// The part of a frequency text before its first `/` ("7.1/7.2" reads as 7.1).
pub open spec fn freq_head(s: Seq<char>) -> Seq<char> {
    match find_from(s, seq!['/'], 0) {
        Some(k) => s.take(k),
        None => s,
    }
}

/// Where the parts of a candidate decimal lie in `s`: the sign, the start of
/// the integer digits, their end and the start of the fraction digits.
pub open spec fn decimal_layout(s: Seq<char>, neg: bool, start: int, ip_end: int, fp_start: int) -> bool {
    let body = if s.len() > 0 && (s[0] == '+' || s[0] == '-') { s.drop_first() } else { s };
    &&& neg == (s.len() > 0 && s[0] == '-')
    &&& start == s.len() - body.len()
    &&& start <= ip_end <= fp_start <= s.len()
    &&& match find_from(body, seq!['.'], 0) {
        Some(k) => ip_end == start + k && fp_start == ip_end + 1,
        None => ip_end == s.len() && fp_start == s.len(),
    }
}

fn decimal_bounds(s: &[char]) -> (r: (bool, usize, usize, usize))
    ensures
        decimal_layout(s@, r.0, r.1 as int, r.2 as int, r.3 as int),
{
    let n = s.len();
    let neg = n > 0 && s[0] == '-';
    let start: usize = if n > 0 && (s[0] == '+' || s[0] == '-') { 1 } else { 0 };
    let ghost body = if s@.len() > 0 && (s@[0] == '+' || s@[0] == '-') { s@.drop_first() } else { s@ };
    assert(body =~= s@.subrange(start as int, n as int));
    let mut k = start;
    while k < n && s[k] != '.'
        invariant
            start <= k <= n == s@.len(),
            body == s@.subrange(start as int, n as int),
            find_from(body, seq!['.'], 0) == find_from(body, seq!['.'], k - start),
        decreases n - k,
    {
        assert(!crate::text::occurs_at(body, seq!['.'], k - start)) by {
            assert(body.subrange(k - start, k - start + 1)[0] == s@[k as int]);
        }
        k = k + 1;
    }
    if k < n {
        assert(body.subrange(k - start, k - start + 1) =~= seq!['.']);
        assert(find_from(body, seq!['.'], k - start) == Some((k - start) as int));
        (neg, start, k, k + 1)
    } else {
        assert(find_from(body, seq!['.'], (n - start) as int) is None);
        (neg, start, n, n)
    }
}

proof fn lemma_plain_decimal_layout(s: Seq<char>, neg: bool, start: int, ip_end: int, fp_start: int)
    requires
        decimal_layout(s, neg, start, ip_end, fp_start),
    ensures
        ({
            let ip = s.subrange(start, ip_end);
            let fp = s.subrange(fp_start, s.len() as int);
            plain_decimal(s) == if all_digits(ip) && all_digits(fp) && ip.len() + fp.len() > 0 {
                Some((neg, ip, fp))
            } else {
                None
            }
        }),
{
    let body = if s.len() > 0 && (s[0] == '+' || s[0] == '-') { s.drop_first() } else { s };
    assert(body =~= s.subrange(start, s.len() as int));
    match find_from(body, seq!['.'], 0) {
        Some(k) => {
            assert(body.take(k) =~= s.subrange(start, ip_end));
            assert(body.skip(k + 1) =~= s.subrange(fp_start, s.len() as int));
        },
        None => {
            assert(body =~= s.subrange(start, ip_end));
            assert(s.subrange(fp_start, s.len() as int) =~= Seq::<char>::empty());
        },
    }
}

fn all_digits_in(s: &[char], from: usize, to: usize) -> (b: bool)
    requires
        from <= to <= s@.len(),
    ensures
        b == all_digits(s@.subrange(from as int, to as int)),
{
    let ghost sub = s@.subrange(from as int, to as int);
    let mut j = from;
    while j < to
        invariant
            from <= j <= to <= s@.len(),
            sub == s@.subrange(from as int, to as int),
            forall|q: int| 0 <= q < j - from ==> crate::num::is_digit(#[trigger] sub[q]),
        decreases to - j,
    {
        assert(sub[j - from] == s@[j as int]);
        if !('0' <= s[j] && s[j] <= '9') {
            return false;
        }
        j = j + 1;
    }
    true
}

fn tail_nonzero(s: &[char], fp_start: usize) -> (b: bool)
    requires
        fp_start <= s@.len(),
    ensures
        b == below_tail_nonzero(s@.subrange(fp_start as int, s@.len() as int)),
{
    let n = s.len();
    let ghost fp = s@.subrange(fp_start as int, n as int);
    if n - fp_start <= 5 {
        return false;
    }
    let mut q: usize = fp_start + 5;
    while q < n
        invariant
            fp_start + 5 <= q <= n == s@.len(),
            fp == s@.subrange(fp_start as int, n as int),
            forall|i: int| 5 <= i < q - fp_start ==> fp[i] == '0',
        decreases n - q,
    {
        assert(fp[q - fp_start] == s@[q as int]);
        if s[q] != '0' {
            return true;
        }
        q = q + 1;
    }
    false
}

fn frac5_of(s: &[char], fp_start: usize) -> (f: u64)
    requires
        fp_start <= s@.len(),
        all_digits(s@.subrange(fp_start as int, s@.len() as int)),
    ensures
        f == frac5(s@.subrange(fp_start as int, s@.len() as int)),
        f < 100000,
{
    let n = s.len();
    let ghost fp = s@.subrange(fp_start as int, n as int);
    assert(pow10(0) == 1 && pow10(1) == 10 && pow10(2) == 100 && pow10(3) == 1000 && pow10(4)
        == 10000 && pow10(5) == 100000) by {
        reveal_with_fuel(pow10, 6);
    }
    if n - fp_start >= 5 {
        assert(fp.take(5) =~= s@.subrange(fp_start as int, fp_start + 5));
        assert(all_digits(fp.take(5)));
        proof {
            crate::num::lemma_digits_value_bound(fp.take(5));
        }
        digits_saturating(s, fp_start, fp_start + 5, 1000000)
    } else {
        proof {
            crate::num::lemma_digits_value_bound(fp);
        }
        let d = digits_saturating(s, fp_start, n, 1000000);
        let flen = n - fp_start;
        let m: u64 = if flen == 0 { 100000 } else if flen == 1 { 10000 } else if flen == 2 { 1000 } else if flen == 3 { 100 } else { 10 };
        assert(d * m < 100000) by (nonlinear_arith)
            requires d < pow10(flen as nat), m == pow10((5 - flen) as nat), flen < 5,
                pow10(1) == 10, pow10(2) == 100, pow10(3) == 1000, pow10(4) == 10000,
                pow10(5) == 100000, pow10(0) == 1;
        d * m
    }
}

/// The sign, magnitude (10^-5 units, capped) and tail flag of a plain decimal.
struct Scaled {
    neg: bool,
    a: u64,
    tail: bool,
}

fn scan_decimal(s: &[char]) -> (r: Option<Scaled>)
    ensures
        match plain_decimal(s@) {
            Some((neg, ip, fp)) => r matches Some(x) && x.neg == neg && x.tail
                == below_tail_nonzero(fp) && (digits_value(ip) < 1000000 ==> x.a
                == scaled_floor(ip, fp)) && (digits_value(ip) >= 1000000 ==> x.a
                >= 100000000000 && scaled_floor(ip, fp) >= 100000000000),
            None => r is None,
        },
{
    let (neg, start, ip_end, fp_start) = decimal_bounds(s);
    proof {
        lemma_plain_decimal_layout(s@, neg, start as int, ip_end as int, fp_start as int);
    }
    let ghost ip = s@.subrange(start as int, ip_end as int);
    let ghost fp = s@.subrange(fp_start as int, s@.len() as int);
    if !all_digits_in(s, start, ip_end) || !all_digits_in(s, fp_start, s.len()) {
        return None;
    }
    if ip_end == start && fp_start >= s.len() {
        return None;
    }
    let ipv = digits_saturating(s, start, ip_end, 1000000);
    let f = frac5_of(s, fp_start);
    let tail = tail_nonzero(s, fp_start);
    proof {
        if digits_value(ip) >= 1000000 {
            assert(digits_value(ip) * 100000 >= 100000000000) by (nonlinear_arith)
                requires digits_value(ip) >= 1000000;
        }
    }
    Some(Scaled { neg, a: ipv * 100000 + f, tail })
}

fn row_holds(x: &Option<Scaled>, lo: u64, hi: u64) -> (b: bool)
    ensures
        b == match x {
            Some(v) => !v.neg && lo <= v.a && (v.a < hi || (v.a == hi && !v.tail)),
            None => false,
        },
{
    match x {
        Some(v) => !v.neg && lo <= v.a && (v.a < hi || (v.a == hi && !v.tail)),
        None => false,
    }
}

/// The first `/`-separated part of a frequency text.
fn head_before_slash(s: &str) -> (r: Vec<char>)
    ensures
        r@ == freq_head(s@),
{
    let cs = crate::text::chars_of(s);
    let slash = ['/'];
    assert(slash@ =~= seq!['/']);
    match crate::text::find(&cs, &slash) {
        Some(k) => {
            let mut r: Vec<char> = Vec::new();
            let mut i: usize = 0;
            while i < k
                invariant
                    i <= k <= cs@.len(),
                    r@ == cs@.take(i as int),
                decreases k - i,
            {
                r.push(cs[i]);
                i = i + 1;
                assert(r@ =~= cs@.take(i as int));
            }
            r
        },
        None => cs,
    }
}

/// The row of the frequency table whose range holds the frequency `f`.
fn band_index(f: &[char]) -> (r: Option<usize>)
    ensures
        r matches Some(i) ==> band_index_from(f@, 0) == Some(i as int) && i < BAND_ROWS,
        r is None ==> band_index_from(f@, 0) is None,
{
    let x = scan_decimal(f);
    let mut i: usize = 0;
    while i < BAND_ROWS
        invariant
            i <= BAND_ROWS,
            band_index_from(f@, 0) == band_index_from(f@, i as int),
            match plain_decimal(f@) {
                Some((neg, ip, fp)) => x matches Some(v) && v.neg == neg && v.tail
                    == below_tail_nonzero(fp) && (digits_value(ip) < 1000000 ==> v.a
                    == scaled_floor(ip, fp)) && (digits_value(ip) >= 1000000 ==> v.a
                    >= 100000000000 && scaled_floor(ip, fp) >= 100000000000),
                None => x is None,
            },
        decreases BAND_ROWS - i,
    {
        let row = band_row_at(i);
        assert(row.1 < 100000000000);
        if row_holds(&x, row.0, row.1) {
            return Some(i);
        }
        i = i + 1;
    }
    None
}

/// Converts a frequency in MHz to its band: the AirHam band name, the SOTA
/// band name and the wavelength. Of "f1/f2" only f1 is read.
pub fn freq_to_band(freq_str: &str) -> (r: Result<(&'static str, &'static str, &'static str), String>)
    ensures
        match band_index_from(freq_head(freq_str@), 0) {
            Some(i) => r == Ok::<(&'static str, &'static str, &'static str), String>(
                (band_row(i).2, band_row(i).3, band_row(i).4),
            ),
            None => r matches Err(e) && e@ == "Unknown frequency: "@ + freq_head(freq_str@),
        },
{
    let head = head_before_slash(freq_str);
    match band_index(&head) {
        Some(i) => {
            let row = band_row_at(i);
            assert(band_index_from(freq_head(freq_str@), 0) == Some(i as int));
            Ok((row.2, row.3, row.4))
        },
        None => {
            assert(band_index_from(freq_head(freq_str@), 0) is None);
            let h = crate::text::string_of(&head);
            Err(crate::text::concat2("Unknown frequency: ", h.as_str()))
        },
    }
}

/// The first row from row `i` on whose wavelength equals `band` after
/// upper-casing both.
pub open spec fn wavelength_index_from(band: Seq<char>, i: int) -> Option<int>
    decreases BAND_ROWS - i,
{
    if i < 0 || i >= BAND_ROWS {
        None
    } else if str_upper(band_row(i).4@) == str_upper(band) {
        Some(i)
    } else {
        wavelength_index_from(band, i + 1)
    }
}

/// The band name of a wavelength: the SOTA name when `is_sota`, else the
/// AirHam name; `None` when no row has that wavelength.
pub open spec fn band_to_freq_of(band: Seq<char>, is_sota: bool) -> Option<&'static str> {
    match wavelength_index_from(band, 0) {
        Some(i) => Some(if is_sota { band_row(i).3 } else { band_row(i).2 }),
        None => None::<&'static str>,
    }
}

/// Converts a band (wavelength, such as "40m") to its band name: the SOTA
/// name when `is_sota`, else the AirHam name.
pub fn band_to_freq(band_str: &str, is_sota: bool) -> (r: Option<&'static str>)
    ensures
        r == band_to_freq_of(band_str@, is_sota),
{
    let band_upper = crate::text::to_upper(band_str);
    let mut i: usize = 0;
    while i < BAND_ROWS
        invariant
            i <= BAND_ROWS,
            band_upper@ == str_upper(band_str@),
            wavelength_index_from(band_str@, 0) == wavelength_index_from(band_str@, i as int),
        decreases BAND_ROWS - i,
    {
        let row = band_row_at(i);
        let wl_upper = crate::text::to_upper(row.4);
        if crate::text::str_eq(wl_upper.as_str(), band_upper.as_str()) {
            return Some(if is_sota { row.3 } else { row.2 });
        }
        i = i + 1;
    }
    None
}

/// The SOTA mode groups: a SOTA mode and the modes that fall under it.
pub open spec fn sota_mode_row(i: int) -> (&'static str, Seq<&'static str>) {
    if i == 0 {
        ("CW", seq!["CW"])
    } else if i == 1 {
        ("SSB", seq!["SSB"])
    } else if i == 2 {
        ("FM", seq!["FM"])
    } else if i == 3 {
        ("AM", seq!["AM"])
    } else if i == 4 {
        ("DATA", seq!["RTTY", "RTY", "PSK", "PSK31", "PSK-31", "DIG", "DATA", "JT9", "JT65", "FT8", "FT4", "FSQ"])
    } else {
        ("DV", seq!["DV", "FUSION", "DSTAR", "D-STAR", "DMR", "C4FM"])
    }
}

/// The number of SOTA mode groups.
pub const SOTA_MODE_ROWS: usize = 6;

fn sota_mode_row_at(i: usize) -> (r: (&'static str, Vec<&'static str>))
    requires
        i < SOTA_MODE_ROWS,
    ensures
        r.0 == sota_mode_row(i as int).0,
        r.1@ == sota_mode_row(i as int).1,
{
    let r = if i == 0 {
        ("CW", vec!["CW"])
    } else if i == 1 {
        ("SSB", vec!["SSB"])
    } else if i == 2 {
        ("FM", vec!["FM"])
    } else if i == 3 {
        ("AM", vec!["AM"])
    } else if i == 4 {
        ("DATA", vec!["RTTY", "RTY", "PSK", "PSK31", "PSK-31", "DIG", "DATA", "JT9", "JT65", "FT8", "FT4", "FSQ"])
    } else {
        ("DV", vec!["DV", "FUSION", "DSTAR", "D-STAR", "DMR", "C4FM"])
    };
    assert(r.1@ =~= sota_mode_row(i as int).1);
    r
}

/// Some pattern of `pats`, upper-cased, equals `key`.
pub open spec fn any_upper_eq(pats: Seq<&'static str>, key: Seq<char>) -> bool {
    exists|j: int| 0 <= j < pats.len() && str_upper(pats[j]@) == key
}

fn any_upper_eq_exec(pats: &Vec<&'static str>, key: &str) -> (b: bool)
    ensures
        b == any_upper_eq(pats@, key@),
{
    let mut j: usize = 0;
    while j < pats.len()
        invariant
            j <= pats@.len(),
            forall|q: int| 0 <= q < j ==> str_upper(pats@[q]@) != key@,
        decreases pats.len() - j,
    {
        let u = crate::text::to_upper(pats[j]);
        if crate::text::str_eq(u.as_str(), key) {
            return true;
        }
        j = j + 1;
    }
    false
}

/// The first SOTA mode group from `i` on that holds `key` (upper-cased).
pub open spec fn sota_mode_index_from(key: Seq<char>, i: int) -> Option<int>
    decreases SOTA_MODE_ROWS - i,
{
    if i < 0 || i >= SOTA_MODE_ROWS {
        None
    } else if any_upper_eq(sota_mode_row(i).1, key) {
        Some(i)
    } else {
        sota_mode_index_from(key, i + 1)
    }
}

/// The SOTA mode of a mode: the first group that lists it (case aside),
/// else "OTHER".
pub open spec fn sota_mode_of(mode: Seq<char>) -> &'static str {
    match sota_mode_index_from(str_upper(mode), 0) {
        Some(i) => sota_mode_row(i).0,
        None => "OTHER",
    }
}

/// The SOTA mode of a mode: CW, SSB, FM, AM, DATA, DV, or OTHER.
pub fn mode_to_sota_mode(mode: &str) -> (r: &'static str)
    ensures
        r == sota_mode_of(mode@),
{
    let mode_upper = crate::text::to_upper(mode);
    let mut i: usize = 0;
    while i < SOTA_MODE_ROWS
        invariant
            i <= SOTA_MODE_ROWS,
            mode_upper@ == str_upper(mode@),
            sota_mode_index_from(str_upper(mode@), 0) == sota_mode_index_from(str_upper(mode@), i as int),
        decreases SOTA_MODE_ROWS - i,
    {
        let row = sota_mode_row_at(i);
        if any_upper_eq_exec(&row.1, mode_upper.as_str()) {
            return row.0;
        }
        i = i + 1;
    }
    "OTHER"
}

/// The ADIF mode and submode lists.
pub open spec fn mfsk_submodes() -> Seq<&'static str> {
    seq!["FSQCALL", "FST4", "FST4W", "FT4", "JS8", "JTMS", "MFSK4", "MFSK8", "MFSK11", "MFSK16",
        "MFSK22", "MFSK31", "MFSK32", "MFSK64", "MFSK64L", "MFSK128", "MFSK128L", "Q65"]
}

/// The ADIF submodes of DIGITALVOICE.
pub open spec fn digitalvoice_submodes() -> Seq<&'static str> {
    seq!["C4FM", "DMR", "DSTAR", "FREEDV", "M17"]
}

/// A mode upper-cased, with DV named DIGITALVOICE and D-STAR/FUSION named DSTAR.
pub open spec fn adif_normalized(mode: Seq<char>) -> Seq<char> {
    let u = str_upper(mode);
    if any_upper_eq(seq!["DV"], u) {
        "DIGITALVOICE"@
    } else if any_upper_eq(seq!["D-STAR", "FUSION"], u) {
        "DSTAR"@
    } else {
        u
    }
}

/// The ADIF mode and submode of a mode.
pub open spec fn adif_mode_of(mode: Seq<char>) -> (Seq<char>, Seq<char>) {
    let s = adif_normalized(mode);
    if any_upper_eq(mfsk_submodes(), s) {
        ("MFSK"@, s)
    } else if any_upper_eq(digitalvoice_submodes(), s) {
        ("DIGITALVOICE"@, s)
    } else {
        (s, Seq::empty())
    }
}

/// Converts a mode to the ADIF mode and submode.
pub fn mode_to_adif_mode(mode: &str) -> (r: (String, String))
    ensures
        (r.0@, r.1@) == adif_mode_of(mode@),
{
    let upper = crate::text::to_upper(mode);
    let dv = vec!["DV"];
    let dstar = vec!["D-STAR", "FUSION"];
    assert(dv@ =~= seq!["DV"]);
    assert(dstar@ =~= seq!["D-STAR", "FUSION"]);
    let smode = if any_upper_eq_exec(&dv, upper.as_str()) {
        "DIGITALVOICE".to_owned()
    } else if any_upper_eq_exec(&dstar, upper.as_str()) {
        "DSTAR".to_owned()
    } else {
        upper
    };
    assert(smode@ == adif_normalized(mode@));
    let mfsk = vec!["FSQCALL", "FST4", "FST4W", "FT4", "JS8", "JTMS", "MFSK4", "MFSK8", "MFSK11",
        "MFSK16", "MFSK22", "MFSK31", "MFSK32", "MFSK64", "MFSK64L", "MFSK128", "MFSK128L", "Q65"];
    let dvs = vec!["C4FM", "DMR", "DSTAR", "FREEDV", "M17"];
    assert(mfsk@ =~= mfsk_submodes());
    assert(dvs@ =~= digitalvoice_submodes());
    if any_upper_eq_exec(&mfsk, smode.as_str()) {
        ("MFSK".to_owned(), smode)
    } else if any_upper_eq_exec(&dvs, smode.as_str()) {
        ("DIGITALVOICE".to_owned(), smode)
    } else {
        (smode, String::new())
    }
}

/// ASCII letters folded to lower case.
pub open spec fn ascii_fold(s: Seq<char>) -> Seq<char> {
    s.map_values(|c: char| if 'A' <= c && c <= 'Z' { ((c as u32) + 32) as char } else { c })
}

/// `f64::from_str` reads `s` as NaN (0), +infinity (1) or -infinity (2).
pub open spec fn float_special(s: Seq<char>) -> Option<int> {
    let neg = s.len() > 0 && s[0] == '-';
    let body = if s.len() > 0 && (s[0] == '+' || s[0] == '-') { s.drop_first() } else { s };
    let f = ascii_fold(body);
    if f == "nan"@ {
        Some(0)
    } else if f == "inf"@ || f == "infinity"@ {
        Some(if neg { 2int } else { 1int })
    } else {
        None
    }
}

/// The frequency text read as `f64` (0.0 when it does not parse) is at most
/// 7.2 MHz, the edge below which SSB is LSB.
pub open spec fn freq_at_most_7_2(s: Seq<char>) -> bool {
    match plain_decimal(s) {
        Some((neg, ip, fp)) => {
            let a = scaled_floor(ip, fp);
            neg || a < 720000 || (a == 720000 && !below_tail_nonzero(fp))
        },
        None => match float_special(s) {
            Some(k) => k == 2,
            None => true,
        },
    }
}

fn float_special_exec(s: &[char]) -> (r: Option<u8>)
    ensures
        match float_special(s@) {
            Some(k) => r == Some(k as u8),
            None => r is None,
        },
{
    let n = s.len();
    let neg = n > 0 && s[0] == '-';
    let start: usize = if n > 0 && (s[0] == '+' || s[0] == '-') { 1 } else { 0 };
    let ghost body = if s@.len() > 0 && (s@[0] == '+' || s@[0] == '-') { s@.drop_first() } else { s@ };
    assert(body =~= s@.subrange(start as int, n as int));
    let mut f: Vec<char> = Vec::new();
    let mut i = start;
    while i < n
        invariant
            start <= i <= n == s@.len(),
            body == s@.subrange(start as int, n as int),
            f@ == ascii_fold(body).take(i - start),
        decreases n - i,
    {
        let c = s[i];
        let d = if 'A' <= c && c <= 'Z' { ((c as u32) + 32) as u8 as char } else { c };
        assert(ascii_fold(body)[i - start] == d) by {
            assert(body[i - start] == c);
            if 'A' <= c && c <= 'Z' {
                assert(((c as u32) + 32) as u8 as char == ((c as u32) + 32) as char);
            }
        }
        f.push(d);
        i = i + 1;
        assert(f@ =~= ascii_fold(body).take(i - start));
    }
    assert(ascii_fold(body).take(n - start) =~= ascii_fold(body));
    let fs = crate::text::string_of(&f);
    if crate::text::str_eq(fs.as_str(), "nan") {
        Some(0)
    } else if crate::text::str_eq(fs.as_str(), "inf") || crate::text::str_eq(fs.as_str(), "infinity") {
        Some(if neg { 2 } else { 1 })
    } else {
        None
    }
}

/// The AirHam mode: SSB becomes SSB(LSB) up to 7.2 MHz and SSB(USB) above;
/// other modes are upper-cased.
pub open spec fn airham_mode_of(mode: Seq<char>, freq: Seq<char>) -> Seq<char> {
    if str_upper(mode) == "SSB"@ {
        if freq_at_most_7_2(freq) { "SSB(LSB)"@ } else { "SSB(USB)"@ }
    } else {
        str_upper(mode)
    }
}

/// Converts a mode to the AirHam mode: SSB becomes SSB(LSB) at or below
/// 7.2 MHz and SSB(USB) above; other modes are upper-cased.
pub fn mode_to_airham_mode(mode: &str, freq_str: &str) -> (r: String)
    ensures
        r@ == airham_mode_of(mode@, freq_str@),
{
    let mode_upper = crate::text::to_upper(mode);
    if crate::text::str_eq(mode_upper.as_str(), "SSB") {
        let f = crate::text::chars_of(freq_str);
        let le = match scan_decimal(&f) {
            Some(v) => v.neg || v.a < 720000 || (v.a == 720000 && !v.tail),
            None => match float_special_exec(&f) {
                Some(k) => k == 2,
                None => true,
            },
        };
        if le {
            "SSB(LSB)".to_owned()
        } else {
            "SSB(USB)".to_owned()
        }
    } else {
        mode_upper
    }
}

/// The first character is an ASCII digit.
pub open spec fn starts_with_digit(s: Seq<char>) -> bool {
    s.len() > 0 && crate::num::is_digit(s[0])
}

/// The byte length of the UTF-8 encoding (`str::len`).
pub open spec fn byte_len(s: Seq<char>) -> nat {
    (vstd::utf8::encode_utf8(s).len() as usize) as nat
}

/// The operator and portable parts of a callsign (upper-cased):
/// PREFIX/CALL/P gives (CALL, PREFIX), CALL/7/P gives (CALL, "7/P"),
/// CALL/7 and CALL/QRP give (CALL, suffix), of PREFIX/CALL and CALL/SUFFIX
/// the longer part (in bytes) is the call.
pub open spec fn split_callsign_of(call: Seq<char>) -> (Seq<char>, Seq<char>) {
    let c = str_upper(call);
    let p = crate::text::split_on(c, '/');
    if p.len() == 3 {
        if starts_with_digit(p[1]) {
            (p[0], p[1] + seq!['/'] + p[2])
        } else {
            (p[1], p[0])
        }
    } else if p.len() == 2 {
        if starts_with_digit(p[1]) {
            (p[0], p[1])
        } else if str_upper(p[1]) == "QRP"@ {
            (p[0], p[1])
        } else if byte_len(p[1]) > byte_len(p[0]) {
            (p[1], p[0])
        } else {
            (p[0], p[1])
        }
    } else {
        (crate::text::trimmed(c), Seq::empty())
    }
}

/// Splits a callsign into its operator and portable parts.
pub fn split_callsign(call: &str) -> (r: (String, String))
    ensures
        (r.0@, r.1@) == split_callsign_of(call@),
{
    let upper = crate::text::to_upper(call);
    let cs = crate::text::chars_of(upper.as_str());
    let parts = crate::text::split(&cs, crate::text::SepKind::Char('/'));
    let ghost p = crate::text::split_on(upper@, '/');
    assert(crate::text::views(parts@) == p);
    assert(parts@.len() == p.len());
    assert(forall|i: int| 0 <= i < parts@.len() ==> parts@[i]@ == #[trigger] p[i]);
    if parts.len() == 3 {
        if parts[1].len() > 0 && '0' <= parts[1][0] && parts[1][0] <= '9' {
            let mut tail = crate::text::copy_chars(&parts[1]);
            tail.push('/');
            crate::text::push_all(&mut tail, &parts[2]);
            assert(tail@ =~= p[1] + seq!['/'] + p[2]);
            assert(starts_with_digit(p[1]));
            (crate::text::string_of(&parts[0]), crate::text::string_of(&tail))
        } else {
            (crate::text::string_of(&parts[1]), crate::text::string_of(&parts[0]))
        }
    } else if parts.len() == 2 {
        let a = crate::text::string_of(&parts[0]);
        let b = crate::text::string_of(&parts[1]);
        assert(a@ == p[0] && b@ == p[1]);
        if parts[1].len() > 0 && '0' <= parts[1][0] && parts[1][0] <= '9' {
            (a, b)
        } else {
            let bu = crate::text::to_upper(b.as_str());
            if crate::text::str_eq(bu.as_str(), "QRP") {
                (a, b)
            } else if b.as_str().len() > a.as_str().len() {
                (b, a)
            } else {
                (a, b)
            }
        }
    } else {
        let tr = crate::text::trim(&cs);
        assert(p.len() != 2 && p.len() != 3);
        (crate::text::string_of(&tr), String::new())
    }
}

/// The ADIF field name of a log key; unknown keys become COMMENT.
pub open spec fn adif_field_name(key: Seq<char>) -> &'static str {
    if key == "activator"@ {
        "STATION_CALLSIGN"
    } else if key == "callsign"@ {
        "CALL"
    } else if key == "date"@ {
        "QSO_DATE"
    } else if key == "time"@ {
        "TIME_ON"
    } else if key == "band-wlen"@ {
        "BAND"
    } else if key == "mode"@ {
        "MODE"
    } else if key == "sub_mode"@ {
        "SUBMODE"
    } else if key == "rst_sent"@ {
        "RST_SENT"
    } else if key == "rst_rcvd"@ {
        "RST_RCVD"
    } else if key == "mysig"@ {
        "MY_SIG"
    } else if key == "mysiginfo"@ {
        "MY_SIG_INFO"
    } else if key == "mystate"@ {
        "MY_STATE"
    } else if key == "sig"@ {
        "SIG"
    } else if key == "siginfo"@ {
        "SIG_INFO"
    } else if key == "sotaref"@ {
        "SOTA_REF"
    } else if key == "mysotaref"@ {
        "MY_SOTA_REF"
    } else if key == "operator"@ {
        "OPERATOR"
    } else if key == "programid"@ {
        "PROGRAMID"
    } else if key == "adifver"@ {
        "ADIF_VER"
    } else {
        "COMMENT"
    }
}

/// A character with an ASCII lower-case letter made upper-case.
pub open spec fn ascii_upper_char(c: char) -> char {
    if 'a' <= c <= 'z' {
        ((c as int) - 32) as char
    } else {
        c
    }
}

/// A text with its ASCII lower-case letters made upper-case.
pub open spec fn ascii_upper(s: Seq<char>) -> Seq<char> {
    s.map_values(|c: char| ascii_upper_char(c))
}

/// A log key that ADIF names alike: its ADIF name is the key in capitals
/// (the signal reports sent and received, the mode, the operator, the other
/// station's special activity, the program id).
pub open spec fn key_named_alike(key: Seq<char>) -> bool {
    key == "rst_sent"@ || key == "rst_rcvd"@ || key == "mode"@ || key == "operator"@ || key == "sig"@
        || key == "programid"@
}

/// The ADIF name of a log key that ADIF names alike is the key in capitals;
/// and the name of my own special activity, reference or SOTA reference
/// (key "my" + k) is "MY_" before the name of the other station's (key k).
pub proof fn lemma_adif_names_follow_keys(key: Seq<char>)
    ensures
        key_named_alike(key) ==> adif_field_name(key)@ == ascii_upper(key),
        (key == "sig"@ || key == "siginfo"@ || key == "sotaref"@) ==> adif_field_name("my"@ + key)@ == "MY_"@
            + adif_field_name(key)@,
{
    reveal_strlit("rst_sent");
    reveal_strlit("rst_rcvd");
    reveal_strlit("mode");
    reveal_strlit("operator");
    reveal_strlit("sig");
    reveal_strlit("programid");
    reveal_strlit("siginfo");
    reveal_strlit("sotaref");
    reveal_strlit("my");
    reveal_strlit("mysig");
    reveal_strlit("mysiginfo");
    reveal_strlit("mysotaref");
    reveal_strlit("MY_");
    reveal_strlit("RST_SENT");
    reveal_strlit("RST_RCVD");
    reveal_strlit("MODE");
    reveal_strlit("OPERATOR");
    reveal_strlit("SIG");
    reveal_strlit("PROGRAMID");
    reveal_strlit("SIG_INFO");
    reveal_strlit("SOTA_REF");
    reveal_strlit("MY_SIG");
    reveal_strlit("MY_SIG_INFO");
    reveal_strlit("MY_SOTA_REF");
    reveal_strlit("activator");
    reveal_strlit("callsign");
    reveal_strlit("date");
    reveal_strlit("time");
    reveal_strlit("band-wlen");
    reveal_strlit("sub_mode");
    reveal_strlit("mystate");
    if key == "rst_sent"@ {
        assert("rst_sent"@.len() != "activator"@.len());
        assert("rst_sent"@[0] != "callsign"@[0]);
        assert("rst_sent"@.len() != "date"@.len());
        assert("rst_sent"@.len() != "time"@.len());
        assert("rst_sent"@.len() != "band-wlen"@.len());
        assert("rst_sent"@.len() != "mode"@.len());
        assert("rst_sent"@[0] != "sub_mode"@[0]);
        assert(adif_field_name(key) == "RST_SENT");
        assert("RST_SENT"@ =~= ascii_upper("rst_sent"@));
    }
    if key == "rst_rcvd"@ {
        assert("rst_rcvd"@.len() != "activator"@.len());
        assert("rst_rcvd"@[0] != "callsign"@[0]);
        assert("rst_rcvd"@.len() != "date"@.len());
        assert("rst_rcvd"@.len() != "time"@.len());
        assert("rst_rcvd"@.len() != "band-wlen"@.len());
        assert("rst_rcvd"@.len() != "mode"@.len());
        assert("rst_rcvd"@[0] != "sub_mode"@[0]);
        assert("rst_rcvd"@[4] != "rst_sent"@[4]);
        assert(adif_field_name(key) == "RST_RCVD");
        assert("RST_RCVD"@ =~= ascii_upper("rst_rcvd"@));
    }
    if key == "mode"@ {
        assert("mode"@.len() != "activator"@.len());
        assert("mode"@.len() != "callsign"@.len());
        assert("mode"@[0] != "date"@[0]);
        assert("mode"@[0] != "time"@[0]);
        assert("mode"@.len() != "band-wlen"@.len());
        assert(adif_field_name(key) == "MODE");
        assert("MODE"@ =~= ascii_upper("mode"@));
    }
    if key == "operator"@ {
        assert("operator"@.len() != "activator"@.len());
        assert("operator"@[0] != "callsign"@[0]);
        assert("operator"@.len() != "date"@.len());
        assert("operator"@.len() != "time"@.len());
        assert("operator"@.len() != "band-wlen"@.len());
        assert("operator"@.len() != "mode"@.len());
        assert("operator"@[0] != "sub_mode"@[0]);
        assert("operator"@[0] != "rst_sent"@[0]);
        assert("operator"@[0] != "rst_rcvd"@[0]);
        assert("operator"@.len() != "mysig"@.len());
        assert("operator"@.len() != "mysiginfo"@.len());
        assert("operator"@.len() != "mystate"@.len());
        assert("operator"@.len() != "sig"@.len());
        assert("operator"@.len() != "siginfo"@.len());
        assert("operator"@.len() != "sotaref"@.len());
        assert("operator"@.len() != "mysotaref"@.len());
        assert(adif_field_name(key) == "OPERATOR");
        assert("OPERATOR"@ =~= ascii_upper("operator"@));
    }
    if key == "sig"@ {
        assert("sig"@.len() != "activator"@.len());
        assert("sig"@.len() != "callsign"@.len());
        assert("sig"@.len() != "date"@.len());
        assert("sig"@.len() != "time"@.len());
        assert("sig"@.len() != "band-wlen"@.len());
        assert("sig"@.len() != "mode"@.len());
        assert("sig"@.len() != "sub_mode"@.len());
        assert("sig"@.len() != "rst_sent"@.len());
        assert("sig"@.len() != "rst_rcvd"@.len());
        assert("sig"@.len() != "mysig"@.len());
        assert("sig"@.len() != "mysiginfo"@.len());
        assert("sig"@.len() != "mystate"@.len());
        assert(adif_field_name(key) == "SIG");
        assert("SIG"@ =~= ascii_upper("sig"@));
    }
    if key == "programid"@ {
        assert("programid"@[0] != "activator"@[0]);
        assert("programid"@.len() != "callsign"@.len());
        assert("programid"@.len() != "date"@.len());
        assert("programid"@.len() != "time"@.len());
        assert("programid"@[0] != "band-wlen"@[0]);
        assert("programid"@.len() != "mode"@.len());
        assert("programid"@.len() != "sub_mode"@.len());
        assert("programid"@.len() != "rst_sent"@.len());
        assert("programid"@.len() != "rst_rcvd"@.len());
        assert("programid"@.len() != "mysig"@.len());
        assert("programid"@[0] != "mysiginfo"@[0]);
        assert("programid"@.len() != "mystate"@.len());
        assert("programid"@.len() != "sig"@.len());
        assert("programid"@.len() != "siginfo"@.len());
        assert("programid"@.len() != "sotaref"@.len());
        assert("programid"@[0] != "mysotaref"@[0]);
        assert("programid"@.len() != "operator"@.len());
        assert(adif_field_name(key) == "PROGRAMID");
        assert("PROGRAMID"@ =~= ascii_upper("programid"@));
    }
    if key == "sig"@ {
        assert("my"@ + key =~= "mysig"@);
        assert("sig"@.len() != "activator"@.len());
        assert("sig"@.len() != "callsign"@.len());
        assert("sig"@.len() != "date"@.len());
        assert("sig"@.len() != "time"@.len());
        assert("sig"@.len() != "band-wlen"@.len());
        assert("sig"@.len() != "mode"@.len());
        assert("sig"@.len() != "sub_mode"@.len());
        assert("sig"@.len() != "rst_sent"@.len());
        assert("sig"@.len() != "rst_rcvd"@.len());
        assert("sig"@.len() != "mysig"@.len());
        assert("sig"@.len() != "mysiginfo"@.len());
        assert("sig"@.len() != "mystate"@.len());
        assert("mysig"@.len() != "activator"@.len());
        assert("mysig"@.len() != "callsign"@.len());
        assert("mysig"@.len() != "date"@.len());
        assert("mysig"@.len() != "time"@.len());
        assert("mysig"@.len() != "band-wlen"@.len());
        assert("mysig"@.len() != "mode"@.len());
        assert("mysig"@.len() != "sub_mode"@.len());
        assert("mysig"@.len() != "rst_sent"@.len());
        assert("mysig"@.len() != "rst_rcvd"@.len());
        assert(adif_field_name(key) == "SIG");
        assert(adif_field_name("mysig"@) == "MY_SIG");
        assert("MY_"@ + "SIG"@ =~= "MY_SIG"@);
    }
    if key == "siginfo"@ {
        assert("my"@ + key =~= "mysiginfo"@);
        assert("siginfo"@.len() != "activator"@.len());
        assert("siginfo"@.len() != "callsign"@.len());
        assert("siginfo"@.len() != "date"@.len());
        assert("siginfo"@.len() != "time"@.len());
        assert("siginfo"@.len() != "band-wlen"@.len());
        assert("siginfo"@.len() != "mode"@.len());
        assert("siginfo"@.len() != "sub_mode"@.len());
        assert("siginfo"@.len() != "rst_sent"@.len());
        assert("siginfo"@.len() != "rst_rcvd"@.len());
        assert("siginfo"@.len() != "mysig"@.len());
        assert("siginfo"@.len() != "mysiginfo"@.len());
        assert("siginfo"@[0] != "mystate"@[0]);
        assert("siginfo"@.len() != "sig"@.len());
        assert("mysiginfo"@[0] != "activator"@[0]);
        assert("mysiginfo"@.len() != "callsign"@.len());
        assert("mysiginfo"@.len() != "date"@.len());
        assert("mysiginfo"@.len() != "time"@.len());
        assert("mysiginfo"@[0] != "band-wlen"@[0]);
        assert("mysiginfo"@.len() != "mode"@.len());
        assert("mysiginfo"@.len() != "sub_mode"@.len());
        assert("mysiginfo"@.len() != "rst_sent"@.len());
        assert("mysiginfo"@.len() != "rst_rcvd"@.len());
        assert("mysiginfo"@.len() != "mysig"@.len());
        assert(adif_field_name(key) == "SIG_INFO");
        assert(adif_field_name("mysiginfo"@) == "MY_SIG_INFO");
        assert("MY_"@ + "SIG_INFO"@ =~= "MY_SIG_INFO"@);
    }
    if key == "sotaref"@ {
        assert("my"@ + key =~= "mysotaref"@);
        assert("sotaref"@.len() != "activator"@.len());
        assert("sotaref"@.len() != "callsign"@.len());
        assert("sotaref"@.len() != "date"@.len());
        assert("sotaref"@.len() != "time"@.len());
        assert("sotaref"@.len() != "band-wlen"@.len());
        assert("sotaref"@.len() != "mode"@.len());
        assert("sotaref"@.len() != "sub_mode"@.len());
        assert("sotaref"@.len() != "rst_sent"@.len());
        assert("sotaref"@.len() != "rst_rcvd"@.len());
        assert("sotaref"@.len() != "mysig"@.len());
        assert("sotaref"@.len() != "mysiginfo"@.len());
        assert("sotaref"@[0] != "mystate"@[0]);
        assert("sotaref"@.len() != "sig"@.len());
        assert("sotaref"@[1] != "siginfo"@[1]);
        assert("mysotaref"@[0] != "activator"@[0]);
        assert("mysotaref"@.len() != "callsign"@.len());
        assert("mysotaref"@.len() != "date"@.len());
        assert("mysotaref"@.len() != "time"@.len());
        assert("mysotaref"@[0] != "band-wlen"@[0]);
        assert("mysotaref"@.len() != "mode"@.len());
        assert("mysotaref"@.len() != "sub_mode"@.len());
        assert("mysotaref"@.len() != "rst_sent"@.len());
        assert("mysotaref"@.len() != "rst_rcvd"@.len());
        assert("mysotaref"@.len() != "mysig"@.len());
        assert("mysotaref"@[3] != "mysiginfo"@[3]);
        assert("mysotaref"@.len() != "mystate"@.len());
        assert("mysotaref"@.len() != "sig"@.len());
        assert("mysotaref"@.len() != "siginfo"@.len());
        assert("mysotaref"@.len() != "sotaref"@.len());
        assert(adif_field_name(key) == "SOTA_REF");
        assert(adif_field_name("mysotaref"@) == "MY_SOTA_REF");
        assert("MY_"@ + "SOTA_REF"@ =~= "MY_SOTA_REF"@);
    }
}

fn adif_field_name_exec(key: &str) -> (r: &'static str)
    ensures
        r == adif_field_name(key@),
{
    if crate::text::str_eq(key, "activator") {
        "STATION_CALLSIGN"
    } else if crate::text::str_eq(key, "callsign") {
        "CALL"
    } else if crate::text::str_eq(key, "date") {
        "QSO_DATE"
    } else if crate::text::str_eq(key, "time") {
        "TIME_ON"
    } else if crate::text::str_eq(key, "band-wlen") {
        "BAND"
    } else if crate::text::str_eq(key, "mode") {
        "MODE"
    } else if crate::text::str_eq(key, "sub_mode") {
        "SUBMODE"
    } else if crate::text::str_eq(key, "rst_sent") {
        "RST_SENT"
    } else if crate::text::str_eq(key, "rst_rcvd") {
        "RST_RCVD"
    } else if crate::text::str_eq(key, "mysig") {
        "MY_SIG"
    } else if crate::text::str_eq(key, "mysiginfo") {
        "MY_SIG_INFO"
    } else if crate::text::str_eq(key, "mystate") {
        "MY_STATE"
    } else if crate::text::str_eq(key, "sig") {
        "SIG"
    } else if crate::text::str_eq(key, "siginfo") {
        "SIG_INFO"
    } else if crate::text::str_eq(key, "sotaref") {
        "SOTA_REF"
    } else if crate::text::str_eq(key, "mysotaref") {
        "MY_SOTA_REF"
    } else if crate::text::str_eq(key, "operator") {
        "OPERATOR"
    } else if crate::text::str_eq(key, "programid") {
        "PROGRAMID"
    } else if crate::text::str_eq(key, "adifver") {
        "ADIF_VER"
    } else {
        "COMMENT"
    }
}

/// An ADIF field `<NAME:len>value`, the length counted in bytes.
pub open spec fn adif_tag(name: Seq<char>, value: Seq<char>) -> Seq<char> {
    seq!['<'] + name + seq![':'] + crate::num::dec(byte_len(value)) + seq!['>'] + value
}

/// The ADIF field for a key: empty for an empty value, else
/// `<NAME:len>value` with the key's ADIF name and the value's length in
/// bytes.
pub open spec fn adif_field_text(key: Seq<char>, value: Seq<char>) -> Seq<char> {
    if value.len() == 0 {
        Seq::empty()
    } else {
        adif_tag(adif_field_name(key)@, value)
    }
}

/// Builds `<NAME:len>value`.
pub fn adif_tag_exec(name: &str, value: &str) -> (r: String)
    ensures
        r@ == adif_tag(name@, value@),
{
    let len = crate::num::fmt_u64(value.len() as u64, 0);
    proof {
        reveal_strlit("<");
        reveal_strlit(":");
        reveal_strlit(">");
        assert("<"@ =~= seq!['<']);
        assert(":"@ =~= seq![':']);
        assert(">"@ =~= seq!['>']);
    }
    let mut r = crate::text::concat2("<", name);
    r.append(":");
    r.append(len.as_str());
    r.append(">");
    r.append(value);
    assert(crate::num::pad0(crate::num::dec(byte_len(value@)), 0) == crate::num::dec(byte_len(value@)));
    assert(r@ =~= adif_tag(name@, value@));
    r
}

/// Formats an ADIF field for a log key; an empty value gives an empty string.
pub fn adif_field(key: &str, value: &str) -> (r: String)
    ensures
        r@ == adif_field_text(key@, value@),
{
    if value.is_empty() {
        return String::new();
    }
    let name = adif_field_name_exec(key);
    adif_tag_exec(name, value)
}

/// The call area (0 to 9) of a Japanese SOTA association/region prefix.
pub open spec fn ja_region(prefix: Seq<char>) -> Option<&'static str> {
    if prefix == "JA/NI"@ {
        Some("0")
    } else if prefix == "JA/NN"@ {
        Some("0")
    } else if prefix == "JA/TK"@ {
        Some("1")
    } else if prefix == "JA/KN"@ {
        Some("1")
    } else if prefix == "JA/CB"@ {
        Some("1")
    } else if prefix == "JA/ST"@ {
        Some("1")
    } else if prefix == "JA/IB"@ {
        Some("1")
    } else if prefix == "JA/TG"@ {
        Some("1")
    } else if prefix == "JA/GM"@ {
        Some("1")
    } else if prefix == "JA/YN"@ {
        Some("1")
    } else if prefix == "JA/SO"@ {
        Some("2")
    } else if prefix == "JA/GF"@ {
        Some("2")
    } else if prefix == "JA/AC"@ {
        Some("2")
    } else if prefix == "JA/ME"@ {
        Some("2")
    } else if prefix == "JA/KT"@ {
        Some("3")
    } else if prefix == "JA/SI"@ {
        Some("3")
    } else if prefix == "JA/NR"@ {
        Some("3")
    } else if prefix == "JA/OS"@ {
        Some("3")
    } else if prefix == "JA/WK"@ {
        Some("3")
    } else if prefix == "JA/HG"@ {
        Some("3")
    } else if prefix == "JA/OY"@ {
        Some("4")
    } else if prefix == "JA/SN"@ {
        Some("4")
    } else if prefix == "JA/YG"@ {
        Some("4")
    } else if prefix == "JA/TT"@ {
        Some("4")
    } else if prefix == "JA/HS"@ {
        Some("4")
    } else if prefix == "JA5/KA"@ {
        Some("5")
    } else if prefix == "JA5/TS"@ {
        Some("5")
    } else if prefix == "JA5/EH"@ {
        Some("5")
    } else if prefix == "JA5/KC"@ {
        Some("5")
    } else if prefix == "JA6/FO"@ {
        Some("6")
    } else if prefix == "JA6/SG"@ {
        Some("6")
    } else if prefix == "JA6/NS"@ {
        Some("6")
    } else if prefix == "JA6/KM"@ {
        Some("6")
    } else if prefix == "JA6/OT"@ {
        Some("6")
    } else if prefix == "JA6/MZ"@ {
        Some("6")
    } else if prefix == "JA6/KG"@ {
        Some("6")
    } else if prefix == "JA6/ON"@ {
        Some("6")
    } else if prefix == "JA/AM"@ {
        Some("7")
    } else if prefix == "JA/IT"@ {
        Some("7")
    } else if prefix == "JA/AT"@ {
        Some("7")
    } else if prefix == "JA/YM"@ {
        Some("7")
    } else if prefix == "JA/MG"@ {
        Some("7")
    } else if prefix == "JA/FS"@ {
        Some("7")
    } else if prefix == "JA8/SY"@ {
        Some("8")
    } else if prefix == "JA8/RM"@ {
        Some("8")
    } else if prefix == "JA8/KK"@ {
        Some("8")
    } else if prefix == "JA8/OH"@ {
        Some("8")
    } else if prefix == "JA8/SC"@ {
        Some("8")
    } else if prefix == "JA8/IS"@ {
        Some("8")
    } else if prefix == "JA8/NM"@ {
        Some("8")
    } else if prefix == "JA8/SB"@ {
        Some("8")
    } else if prefix == "JA8/TC"@ {
        Some("8")
    } else if prefix == "JA8/KR"@ {
        Some("8")
    } else if prefix == "JA8/HD"@ {
        Some("8")
    } else if prefix == "JA8/IR"@ {
        Some("8")
    } else if prefix == "JA8/HY"@ {
        Some("8")
    } else if prefix == "JA8/OM"@ {
        Some("8")
    } else if prefix == "JA/TY"@ {
        Some("9")
    } else if prefix == "JA/FI"@ {
        Some("9")
    } else if prefix == "JA/IK"@ {
        Some("9")
    } else {
        None
    }
}

fn ja_region_exec(prefix: &str) -> (r: Option<&'static str>)
    ensures
        r == ja_region(prefix@),
{
    if crate::text::str_eq(prefix, "JA/NI") {
        Some("0")
    } else if crate::text::str_eq(prefix, "JA/NN") {
        Some("0")
    } else if crate::text::str_eq(prefix, "JA/TK") {
        Some("1")
    } else if crate::text::str_eq(prefix, "JA/KN") {
        Some("1")
    } else if crate::text::str_eq(prefix, "JA/CB") {
        Some("1")
    } else if crate::text::str_eq(prefix, "JA/ST") {
        Some("1")
    } else if crate::text::str_eq(prefix, "JA/IB") {
        Some("1")
    } else if crate::text::str_eq(prefix, "JA/TG") {
        Some("1")
    } else if crate::text::str_eq(prefix, "JA/GM") {
        Some("1")
    } else if crate::text::str_eq(prefix, "JA/YN") {
        Some("1")
    } else if crate::text::str_eq(prefix, "JA/SO") {
        Some("2")
    } else if crate::text::str_eq(prefix, "JA/GF") {
        Some("2")
    } else if crate::text::str_eq(prefix, "JA/AC") {
        Some("2")
    } else if crate::text::str_eq(prefix, "JA/ME") {
        Some("2")
    } else if crate::text::str_eq(prefix, "JA/KT") {
        Some("3")
    } else if crate::text::str_eq(prefix, "JA/SI") {
        Some("3")
    } else if crate::text::str_eq(prefix, "JA/NR") {
        Some("3")
    } else if crate::text::str_eq(prefix, "JA/OS") {
        Some("3")
    } else if crate::text::str_eq(prefix, "JA/WK") {
        Some("3")
    } else if crate::text::str_eq(prefix, "JA/HG") {
        Some("3")
    } else if crate::text::str_eq(prefix, "JA/OY") {
        Some("4")
    } else if crate::text::str_eq(prefix, "JA/SN") {
        Some("4")
    } else if crate::text::str_eq(prefix, "JA/YG") {
        Some("4")
    } else if crate::text::str_eq(prefix, "JA/TT") {
        Some("4")
    } else if crate::text::str_eq(prefix, "JA/HS") {
        Some("4")
    } else if crate::text::str_eq(prefix, "JA5/KA") {
        Some("5")
    } else if crate::text::str_eq(prefix, "JA5/TS") {
        Some("5")
    } else if crate::text::str_eq(prefix, "JA5/EH") {
        Some("5")
    } else if crate::text::str_eq(prefix, "JA5/KC") {
        Some("5")
    } else if crate::text::str_eq(prefix, "JA6/FO") {
        Some("6")
    } else if crate::text::str_eq(prefix, "JA6/SG") {
        Some("6")
    } else if crate::text::str_eq(prefix, "JA6/NS") {
        Some("6")
    } else if crate::text::str_eq(prefix, "JA6/KM") {
        Some("6")
    } else if crate::text::str_eq(prefix, "JA6/OT") {
        Some("6")
    } else if crate::text::str_eq(prefix, "JA6/MZ") {
        Some("6")
    } else if crate::text::str_eq(prefix, "JA6/KG") {
        Some("6")
    } else if crate::text::str_eq(prefix, "JA6/ON") {
        Some("6")
    } else if crate::text::str_eq(prefix, "JA/AM") {
        Some("7")
    } else if crate::text::str_eq(prefix, "JA/IT") {
        Some("7")
    } else if crate::text::str_eq(prefix, "JA/AT") {
        Some("7")
    } else if crate::text::str_eq(prefix, "JA/YM") {
        Some("7")
    } else if crate::text::str_eq(prefix, "JA/MG") {
        Some("7")
    } else if crate::text::str_eq(prefix, "JA/FS") {
        Some("7")
    } else if crate::text::str_eq(prefix, "JA8/SY") {
        Some("8")
    } else if crate::text::str_eq(prefix, "JA8/RM") {
        Some("8")
    } else if crate::text::str_eq(prefix, "JA8/KK") {
        Some("8")
    } else if crate::text::str_eq(prefix, "JA8/OH") {
        Some("8")
    } else if crate::text::str_eq(prefix, "JA8/SC") {
        Some("8")
    } else if crate::text::str_eq(prefix, "JA8/IS") {
        Some("8")
    } else if crate::text::str_eq(prefix, "JA8/NM") {
        Some("8")
    } else if crate::text::str_eq(prefix, "JA8/SB") {
        Some("8")
    } else if crate::text::str_eq(prefix, "JA8/TC") {
        Some("8")
    } else if crate::text::str_eq(prefix, "JA8/KR") {
        Some("8")
    } else if crate::text::str_eq(prefix, "JA8/HD") {
        Some("8")
    } else if crate::text::str_eq(prefix, "JA8/IR") {
        Some("8")
    } else if crate::text::str_eq(prefix, "JA8/HY") {
        Some("8")
    } else if crate::text::str_eq(prefix, "JA8/OM") {
        Some("8")
    } else if crate::text::str_eq(prefix, "JA/TY") {
        Some("9")
    } else if crate::text::str_eq(prefix, "JA/FI") {
        Some("9")
    } else if crate::text::str_eq(prefix, "JA/IK") {
        Some("9")
    } else {
        None
    }
}

/// A latitude/longitude pair, such as "35.6N, 139.7E".
pub const RE_COORD: &'static str = "(-?\\d+(\\.\\d+)?[nsNS]?\\s*,\\s*-?\\d+(\\.\\d+)?[ewEW]?)";

/// A WWFF reference, such as JAFF-0001, in any case.
pub const RE_WWFF_IN: &'static str = "(?i)([A-Z0-9]+FF-\\d+)";

/// A POTA reference, such as JA-0001.
pub const RE_POTA_IN: &'static str = "([a-zA-Z0-9]+-\\d{4})";

/// A SOTA reference, such as JA/TK-001; group 2 is its association and region.
pub const RE_SOTA_IN: &'static str = "(([a-zA-Z0-9]+/[a-zA-Z0-9]+)-\\d+)";

/// A six-character grid locator, such as PM95vq.
pub const RE_GRID: &'static str = "([a-zA-Z]{2}\\d{2}[a-zA-Z]{2})";

/// A satellite reference, such as AO-91/FM/U; groups: whole, satellite, mode/band, band.
pub const RE_SAT: &'static str = "(([a-zA-Z]+-\\d+)/([a-zA-Z]+/(\\w+)))";


/// The capture groups of `pattern` in `hay`, as plain text, when it matches.
pub open spec fn caps_of(pattern: &'static str, hay: Seq<char>) -> Option<Seq<Option<Seq<char>>>> {
    crate::pattern::regex_captures(pattern@, hay)
}

/// The location text that a coordinate pair in the whole text sets.
pub open spec fn coord_loc(s: Seq<char>) -> Seq<char> {
    match caps_of(RE_COORD, s) {
        Some(c) => "%QTH%"@ + group_text(c, 1) + "% "@,
        None => Seq::empty(),
    }
}

/// The reference information after one piece of the text is read.
pub open spec fn ref_step(info: RefInfoView, part: Seq<char>) -> RefInfoView {
    if part.len() == 0 {
        info
    } else if let Some(c) = caps_of(RE_WWFF_IN, part) {
        RefInfoView { wwff: info.wwff.push(str_upper(group_text(c, 1))), ..info }
    } else if let Some(c) = caps_of(RE_POTA_IN, part) {
        RefInfoView { pota: info.pota.push(str_upper(group_text(c, 1))), ..info }
    } else if let Some(c) = caps_of(RE_SOTA_IN, part) {
        RefInfoView {
            sota: str_upper(group_text(c, 1)),
            portable: match ja_region(str_upper(group_text(c, 2))) {
                Some(a) => a@,
                None => "P"@,
            },
            ..info
        }
    } else if let Some(c) = caps_of(RE_GRID, part) {
        RefInfoView {
            loc: "%QRA%"@ + group_text(c, 1) + "% "@,
            loc_org: group_text(c, 1),
            ..info
        }
    } else if let Some(c) = caps_of(RE_SAT, part) {
        RefInfoView {
            sat: "%SAT%"@ + str_upper(group_text(c, 2)) + "%,"@ + group_text(c, 3),
            sat_oscar: str_upper(group_text(c, 2)),
            sat_org: group_text(c, 1),
            sat_down: group_text(c, 4),
            ..info
        }
    } else if info.org.len() == 0 {
        RefInfoView { org: part, ..info }
    } else {
        RefInfoView { org: info.org + seq![' '] + part, ..info }
    }
}

/// The reference information after the pieces `parts` are read in order.
pub open spec fn ref_fold(info: RefInfoView, parts: Seq<Seq<char>>) -> RefInfoView
    decreases parts.len(),
{
    if parts.len() == 0 {
        info
    } else {
        ref_step(ref_fold(info, parts.drop_last()), parts.last())
    }
}

/// The reference information of a remarks text: a coordinate pair anywhere in
/// it sets the location, then each piece between commas and white space is
/// read as a WWFF, POTA or SOTA reference, a grid locator or a satellite, and
/// otherwise kept as free text.
pub open spec fn ref_info_of(s: Seq<char>) -> RefInfoView {
    ref_fold(
        RefInfoView { loc: coord_loc(s), ..empty_ref_info() },
        split_when(s, sep_pred(SepKind::CommaOrSpace)),
    )
}

fn upper_group(g: &Vec<Option<String>>, i: usize) -> (r: String)
    ensures
        r@ == str_upper(group_text(group_views(g@), i as int)),
{
    let t = group_at(g, i);
    to_upper(t.as_str())
}

fn read_ref_part(info: &mut RefInfo, part: &[char])
    ensures
        final(info)@ == ref_step(old(info)@, part@),
{
    if part.len() == 0 {
        return;
    }
    let p = string_of(part);
    if let Some(g) = captures(RE_WWFF_IN, p.as_str()) {
        let ghost old_w = info@.wwff;
        info.wwff.push(upper_group(&g, 1));
        assert(info@.wwff =~= old_w.push(str_upper(group_text(group_views(g@), 1))));
        return;
    }
    if let Some(g) = captures(RE_POTA_IN, p.as_str()) {
        let ghost old_p = info@.pota;
        info.pota.push(upper_group(&g, 1));
        assert(info@.pota =~= old_p.push(str_upper(group_text(group_views(g@), 1))));
        return;
    }
    if let Some(g) = captures(RE_SOTA_IN, p.as_str()) {
        info.sota = upper_group(&g, 1);
        let prefix = upper_group(&g, 2);
        info.portable = match ja_region_exec(prefix.as_str()) {
            Some(a) => copy_str(a),
            None => copy_str("P"),
        };
        return;
    }
    if let Some(g) = captures(RE_GRID, p.as_str()) {
        let t = group_at(&g, 1);
        let mut loc = copy_str("%QRA%");
        loc.append(t.as_str());
        loc.append("% ");
        info.loc = loc;
        info.loc_org = t;
        return;
    }
    if let Some(g) = captures(RE_SAT, p.as_str()) {
        let oscar = upper_group(&g, 2);
        let mut sat = copy_str("%SAT%");
        sat.append(oscar.as_str());
        sat.append("%,");
        sat.append(group_at(&g, 3).as_str());
        info.sat = sat;
        info.sat_oscar = oscar;
        info.sat_org = group_at(&g, 1);
        info.sat_down = group_at(&g, 4);
        return;
    }
    if info.org.as_str().is_empty() {
        info.org = p;
    } else {
        let ghost o = info.org@;
        proof {
            reveal_strlit(" ");
        }
        info.org.append(" ");
        info.org.append(p.as_str());
        assert(info.org@ =~= o + seq![' '] + part@);
    }
}

/// Extracts the reference information of a remarks text (see `ref_info_of`).
pub fn get_ref(s: &str) -> (r: RefInfo)
    ensures
        r@ == ref_info_of(s@),
{
    let mut info = RefInfo::default();
    if let Some(g) = captures(RE_COORD, s) {
        let mut loc = copy_str("%QTH%");
        loc.append(group_at(&g, 1).as_str());
        loc.append("% ");
        info.loc = loc;
    }
    let ghost init = info@;
    assert(init == RefInfoView { loc: coord_loc(s@), ..empty_ref_info() });
    let cs = chars_of(s);
    let parts = split(cs.as_slice(), SepKind::CommaOrSpace);
    let ghost ps = views(parts@);
    let mut i: usize = 0;
    while i < parts.len()
        invariant
            i <= parts@.len(),
            ps == views(parts@),
            info@ == ref_fold(init, ps.take(i as int)),
        decreases parts.len() - i,
    {
        assert(ps.take(i + 1).drop_last() =~= ps.take(i as int));
        read_ref_part(&mut info, parts[i].as_slice());
        i = i + 1;
    }
    assert(ps.take(parts@.len() as int) =~= ps);
    info
}

} // verus!
