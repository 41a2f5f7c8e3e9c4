//! The FLE tokenizer: splits a line into words and bracketed comments and
//! classifies each word.
use vstd::prelude::*;
use crate::fle::types::{keyword_table, keyword_table_get, mode_table, mode_table_get};
use crate::logconv::types::{band_to_freq, band_to_freq_of, byte_len};
use crate::num::parse_uint_max;
use crate::pattern::{captures, group_at, group_text, group_views, is_match, regex_captures, regex_matches};
use crate::text::{
    chars_of, copy_str, split, sub_chars, split_on, str_eq, str_lower, str_upper, string_of, to_lower,
    to_upper, views, SepKind,
};

verus! {

/// A date written year, month, day with `-` or `/` between.
pub const RE_DATE: &'static str = "^(\\d+)[/-](\\d+)[/-](\\d+)$";

/// A date written month, day.
pub const RE_DATE2: &'static str = "^(\\d+)[/-](\\d+)$";

/// A frequency in MHz, such as 7.025.
pub const RE_FREQ: &'static str = "^\\d+\\.\\d+$";

/// A signal-to-noise ratio, such as +10 or -15.
pub const RE_SNR: &'static str = "^[+-]\\d+$";

/// A WWFF reference.
pub const RE_WWFF: &'static str = "^\\w+FF-\\d+$";

/// A SOTA reference.
pub const RE_SOTA: &'static str = "^\\w+/\\w+-\\d+$";

/// A POTA reference.
pub const RE_POTA: &'static str = "^\\w+-\\d+$";

/// A decimal number.
pub const RE_DECIMAL: &'static str = "^\\d+$";

/// A contest number sent, written after a dot.
pub const RE_CONTEST_SENT: &'static str = "^\\.\\w+";

/// A contest number received, written after a comma.
pub const RE_CONTEST_RCVD: &'static str = "^,\\w+";

/// A plain callsign: one to three letters, a digit, and ending in a letter.
pub const RE_CALLSIGN: &'static str = "^[A-Z]{1,3}[0-9][A-Z0-9]*[A-Z]$";

/// A callsign with a prefix or suffix.
pub const RE_CALLSIGN_PORTABLE: &'static str = "^[A-Z0-9]+/[A-Z0-9]+(/[A-Z0-9]+)?$";

/// Something that looks like a reference but is none of the known ones.
pub const RE_UNKNOWN_REF: &'static str = ".*[/\\-]+.*";

/// A token of a FLE line.
#[derive(Debug, Clone)]
pub enum Token {
    Date { year: u16, month: u8, day: u8 },
    Date2 { month: u8, day: u8 },
    Freq(String),
    Band { band: String, freq: String },
    Snr(String),
    WwffRef(String),
    SotaRef(String),
    PotaRef(String),
    Keyword { key: String, arg_count: i8 },
    Mode(String),
    Call(String),
    Decimal { digits: usize, value: String },
    Comment { kind: CommentKind, content: String },
    ContestSent(String),
    ContestRcvd(String),
    Literal(String),
    Unknown(String),
}

/// The bracket of a comment: `<..>` a QSO message, `[..]` a QSL message,
/// `{..}` remarks.
#[derive(Debug, Clone, Copy, PartialEq, Eq, Structural)]
pub enum CommentKind {
    Angle,
    Square,
    Curly,
}

/// The plain value of a `Token`.
pub enum TokenView {
    Date { year: u16, month: u8, day: u8 },
    Date2 { month: u8, day: u8 },
    Freq(Seq<char>),
    Band { band: Seq<char>, freq: Seq<char> },
    Snr(Seq<char>),
    WwffRef(Seq<char>),
    SotaRef(Seq<char>),
    PotaRef(Seq<char>),
    Keyword { key: Seq<char>, arg_count: i8 },
    Mode(Seq<char>),
    Call(Seq<char>),
    Decimal { digits: usize, value: Seq<char> },
    Comment { kind: CommentKind, content: Seq<char> },
    ContestSent(Seq<char>),
    ContestRcvd(Seq<char>),
    Literal(Seq<char>),
    Unknown(Seq<char>),
}

impl View for Token {
    type V = TokenView;

    open spec fn view(&self) -> TokenView {
        match self {
            Token::Date { year, month, day } => TokenView::Date { year: *year, month: *month, day: *day },
            Token::Date2 { month, day } => TokenView::Date2 { month: *month, day: *day },
            Token::Freq(s) => TokenView::Freq(s@),
            Token::Band { band, freq } => TokenView::Band { band: band@, freq: freq@ },
            Token::Snr(s) => TokenView::Snr(s@),
            Token::WwffRef(s) => TokenView::WwffRef(s@),
            Token::SotaRef(s) => TokenView::SotaRef(s@),
            Token::PotaRef(s) => TokenView::PotaRef(s@),
            Token::Keyword { key, arg_count } => TokenView::Keyword { key: key@, arg_count: *arg_count },
            Token::Mode(s) => TokenView::Mode(s@),
            Token::Call(s) => TokenView::Call(s@),
            Token::Decimal { digits, value } => TokenView::Decimal { digits: *digits, value: value@ },
            Token::Comment { kind, content } => TokenView::Comment { kind: *kind, content: content@ },
            Token::ContestSent(s) => TokenView::ContestSent(s@),
            Token::ContestRcvd(s) => TokenView::ContestRcvd(s@),
            Token::Literal(s) => TokenView::Literal(s@),
            Token::Unknown(s) => TokenView::Unknown(s@),
        }
    }
}

/// A token with its position (in characters) and its text as written.
#[derive(Debug, Clone)]
pub struct TokenInfo {
    pub token: Token,
    pub position: usize,
    pub raw: String,
}

/// The plain value of a `TokenInfo`.
pub struct TokenInfoView {
    pub token: TokenView,
    pub position: usize,
    pub raw: Seq<char>,
}

impl View for TokenInfo {
    type V = TokenInfoView;

    open spec fn view(&self) -> TokenInfoView {
        TokenInfoView { token: self.token@, position: self.position, raw: self.raw@ }
    }
}

/// The plain values of a sequence of tokens.
pub open spec fn token_views(v: Seq<TokenInfo>) -> Seq<TokenInfoView> {
    v.map_values(|t: TokenInfo| t@)
}

/// What `char::is_numeric` returns: the Unicode numeric categories.
pub uninterp spec fn char_numeric(c: char) -> bool;

/// Calls `char::is_numeric`; the result is named by `char_numeric`.
#[verifier::external_body]
fn is_numeric(c: char) -> (b: bool)
    ensures
        b == char_numeric(c),
{
    c.is_numeric()
}

/// `parse::<T>()` of an unsigned type whose largest value is `max`, or
/// `default` where that fails.
pub open spec fn parse_or(s: Seq<char>, max: nat, default: nat) -> nat {
    match parse_uint_max(s, max) {
        Some(v) => v,
        None => default,
    }
}

fn parse_or_exec(s: &str, max: u64, default: u64) -> (r: u64)
    requires
        default <= max,
    ensures
        r == parse_or(s@, max as nat, default as nat),
{
    let cs = chars_of(s);
    match crate::num::parse_u64(cs.as_slice()) {
        Some(v) => if v <= max { v } else { default },
        None => {
            proof {
                if let Some(v) = parse_uint_max(s@, max as nat) {
                    assert(parse_uint_max(s@, u64::MAX as nat) == Some(v));
                }
            }
            default
        },
    }
}

/// Some piece of `parts` is a plain callsign.
pub open spec fn some_plain_callsign(parts: Seq<Seq<char>>) -> bool {
    exists|i: int| 0 <= i < parts.len() && regex_matches(RE_CALLSIGN@, #[trigger] parts[i])
}

/// A callsign: a plain one, or one with a prefix or suffix of which some
/// piece between slashes is a plain callsign.
pub open spec fn callsign_like(s: Seq<char>) -> bool {
    regex_matches(RE_CALLSIGN@, s) || (regex_matches(RE_CALLSIGN_PORTABLE@, s)
        && some_plain_callsign(split_on(s, '/')))
}

/// Whether `s` is a callsign (see `callsign_like`).
pub fn is_callsign(s: &str) -> (b: bool)
    ensures
        b == callsign_like(s@),
{
    if is_match(RE_CALLSIGN, s) {
        return true;
    }
    if is_match(RE_CALLSIGN_PORTABLE, s) {
        let cs = chars_of(s);
        let parts = split(cs.as_slice(), SepKind::Char('/'));
        let ghost ps = views(parts@);
        let mut i: usize = 0;
        while i < parts.len()
            invariant
                i <= parts@.len(),
                ps == views(parts@),
                ps == split_on(s@, '/'),
                regex_matches(RE_CALLSIGN_PORTABLE@, s@),
                forall|k: int| 0 <= k < i ==> !regex_matches(RE_CALLSIGN@, #[trigger] ps[k]),
            decreases parts.len() - i,
        {
            let p = string_of(parts[i].as_slice());
            assert(p@ == ps[i as int]);
            if is_match(RE_CALLSIGN, p.as_str()) {
                assert(regex_matches(RE_CALLSIGN@, ps[i as int]));
                return true;
            }
            i = i + 1;
        }
    }
    false
}

/// `s` without its first character (of a contest number, the dot or comma).
pub open spec fn after_first(s: Seq<char>) -> Seq<char> {
    if s.len() > 0 {
        s.drop_first()
    } else {
        s
    }
}

/// The token that a word stands for; `up` is the word upper-cased.
pub open spec fn classify(word: Seq<char>) -> TokenView {
    let up = str_upper(word);
    let low = str_lower(up);
    if let Some(c) = regex_captures(RE_DATE@, up) {
        TokenView::Date {
            year: parse_or(group_text(c, 1), 65535, 2000) as u16,
            month: parse_or(group_text(c, 2), 255, 1) as u8,
            day: parse_or(group_text(c, 3), 255, 1) as u8,
        }
    } else if let Some(c) = regex_captures(RE_DATE2@, up) {
        TokenView::Date2 {
            month: parse_or(group_text(c, 1), 255, 1) as u8,
            day: parse_or(group_text(c, 2), 255, 1) as u8,
        }
    } else if regex_matches(RE_FREQ@, up) {
        TokenView::Freq(word)
    } else if regex_matches(RE_SNR@, up) {
        TokenView::Snr(word)
    } else if let Some(f) = band_to_freq_of(word, true) {
        TokenView::Band { band: word, freq: f@ }
    } else if regex_matches(RE_WWFF@, up) {
        TokenView::WwffRef(up)
    } else if regex_matches(RE_SOTA@, up) {
        TokenView::SotaRef(up)
    } else if regex_matches(RE_POTA@, up) {
        TokenView::PotaRef(up)
    } else if let Some(n) = keyword_table(low) {
        TokenView::Keyword {
            key: low,
            arg_count: if up == "QSLMSG"@ || up == "QSLMSG2"@ { -1i8 } else { n },
        }
    } else if mode_table(low) is Some {
        TokenView::Mode(up)
    } else if regex_matches(RE_DECIMAL@, up) {
        TokenView::Decimal { digits: byte_len(word) as usize, value: word }
    } else if callsign_like(up) {
        TokenView::Call(up)
    } else if regex_matches(RE_CONTEST_SENT@, up) {
        TokenView::ContestSent(after_first(up))
    } else if regex_matches(RE_CONTEST_RCVD@, up) {
        TokenView::ContestRcvd(after_first(up))
    } else if regex_matches(RE_UNKNOWN_REF@, up) {
        TokenView::Unknown(up)
    } else {
        TokenView::Literal(up)
    }
}

fn drop_first_char(s: &str) -> (r: String)
    ensures
        r@ == after_first(s@),
{
    let cs = chars_of(s);
    let mut out: Vec<char> = Vec::new();
    let mut i: usize = if cs.len() > 0 { 1 } else { 0 };
    let start = i;
    while i < cs.len()
        invariant
            start <= i <= cs@.len(),
            cs@ == s@,
            start == (if cs@.len() > 0 { 1usize } else { 0usize }),
            out@ == cs@.subrange(start as int, i as int),
        decreases cs.len() - i,
    {
        out.push(cs[i]);
        i = i + 1;
        assert(out@ =~= cs@.subrange(start as int, i as int));
    }
    assert(cs@.subrange(start as int, cs@.len() as int) =~= (if s@.len() > 0 {
        s@.drop_first()
    } else {
        s@
    }));
    string_of(out.as_slice())
}

/// Classifies a word (see `classify`).
pub fn classify_token(word: &str) -> (t: Token)
    ensures
        t@ == classify(word@),
{
    let up = to_upper(word);
    let upr = up.as_str();
    let low = to_lower(upr);
    if let Some(g) = captures(RE_DATE, upr) {
        let y = parse_or_exec(group_at(&g, 1).as_str(), 65535, 2000);
        let m = parse_or_exec(group_at(&g, 2).as_str(), 255, 1);
        let d = parse_or_exec(group_at(&g, 3).as_str(), 255, 1);
        return Token::Date { year: y as u16, month: m as u8, day: d as u8 };
    }
    if let Some(g) = captures(RE_DATE2, upr) {
        let m = parse_or_exec(group_at(&g, 1).as_str(), 255, 1);
        let d = parse_or_exec(group_at(&g, 2).as_str(), 255, 1);
        return Token::Date2 { month: m as u8, day: d as u8 };
    }
    if is_match(RE_FREQ, upr) {
        return Token::Freq(copy_str(word));
    }
    if is_match(RE_SNR, upr) {
        return Token::Snr(copy_str(word));
    }
    if let Some(f) = band_to_freq(word, true) {
        return Token::Band { band: copy_str(word), freq: copy_str(f) };
    }
    if is_match(RE_WWFF, upr) {
        return Token::WwffRef(copy_str(upr));
    }
    if is_match(RE_SOTA, upr) {
        return Token::SotaRef(copy_str(upr));
    }
    if is_match(RE_POTA, upr) {
        return Token::PotaRef(copy_str(upr));
    }
    if let Some(n) = keyword_table_get(low.as_str()) {
        let arg_count = if str_eq(upr, "QSLMSG") || str_eq(upr, "QSLMSG2") {
            -1i8
        } else {
            n
        };
        return Token::Keyword { key: low, arg_count };
    }
    if mode_table_get(low.as_str()).is_some() {
        return Token::Mode(copy_str(upr));
    }
    if is_match(RE_DECIMAL, upr) {
        return Token::Decimal { digits: word.len(), value: copy_str(word) };
    }
    if is_callsign(upr) {
        return Token::Call(copy_str(upr));
    }
    if is_match(RE_CONTEST_SENT, upr) {
        return Token::ContestSent(drop_first_char(upr));
    }
    if is_match(RE_CONTEST_RCVD, upr) {
        return Token::ContestRcvd(drop_first_char(upr));
    }
    if is_match(RE_UNKNOWN_REF, upr) {
        return Token::Unknown(copy_str(upr));
    }
    Token::Literal(copy_str(upr))
}

/// A character that separates tokens: a space or an ideographic space.
pub open spec fn is_gap(c: char) -> bool {
    c == ' ' || c == '\u{3000}'
}

/// A character that ends a word: a gap, `#` or an opening bracket.
pub open spec fn ends_word(c: char) -> bool {
    is_gap(c) || c == '#' || c == '<' || c == '[' || c == '{'
}

/// The comment kind that an opening bracket starts.
pub open spec fn comment_kind(c: char) -> CommentKind {
    if c == '<' {
        CommentKind::Angle
    } else if c == '[' {
        CommentKind::Square
    } else {
        CommentKind::Curly
    }
}

/// The closing bracket of a comment kind.
pub open spec fn closer(k: CommentKind) -> char {
    match k {
        CommentKind::Angle => '>',
        CommentKind::Square => ']',
        CommentKind::Curly => '}',
    }
}

/// The first index from `i` on whose character meets `stop`, or the length.
pub open spec fn scan_to(cs: Seq<char>, i: int, stop: spec_fn(char) -> bool) -> int
    decreases cs.len() - i,
{
    if i < 0 || i >= cs.len() {
        cs.len() as int
    } else if stop(cs[i]) {
        i
    } else {
        scan_to(cs, i + 1, stop)
    }
}

/// A scan stops within the text, at or after where it starts.
pub proof fn lemma_scan_to(cs: Seq<char>, i: int, stop: spec_fn(char) -> bool)
    requires
        0 <= i <= cs.len(),
    ensures
        i <= scan_to(cs, i, stop) <= cs.len(),
        forall|k: int| i <= k < scan_to(cs, i, stop) ==> !stop(#[trigger] cs[k]),
        scan_to(cs, i, stop) < cs.len() ==> stop(cs[scan_to(cs, i, stop)]),
    decreases cs.len() - i,
{
    if i < cs.len() && !stop(cs[i]) {
        lemma_scan_to(cs, i + 1, stop);
    }
}

/// The tokens of the characters `cs` from index `pos` on: gaps are skipped,
/// `#` ends the line, a bracket starts a comment that runs to its closing
/// bracket (or the end of the line), and any other run of characters up to
/// a gap, `#` or bracket is a word, classified by `classify`.
pub open spec fn tokens_from(cs: Seq<char>, pos: int) -> Seq<TokenInfoView>
    decreases cs.len() - pos,
{
    if pos < 0 || pos >= cs.len() {
        Seq::empty()
    } else {
        let c = cs[pos];
        if is_gap(c) {
            tokens_from(cs, pos + 1)
        } else if c == '#' {
            Seq::empty()
        } else if c == '<' || c == '[' || c == '{' {
            let k = comment_kind(c);
            let j = scan_to(cs, pos + 1, |x: char| x == closer(k));
            proof {
                lemma_scan_to(cs, pos + 1, |x: char| x == closer(k));
            }
            let end = if j < cs.len() { j + 1 } else { j };
            seq![
                TokenInfoView {
                    token: TokenView::Comment { kind: k, content: cs.subrange(pos + 1, j) },
                    position: pos as usize,
                    raw: cs.subrange(pos, end),
                },
            ] + tokens_from(cs, end)
        } else {
            let j = scan_to(cs, pos, |x: char| ends_word(x));
            proof {
                lemma_scan_to(cs, pos, |x: char| ends_word(x));
            }
            seq![
                TokenInfoView {
                    token: classify(cs.subrange(pos, j)),
                    position: pos as usize,
                    raw: cs.subrange(pos, j),
                },
            ] + tokens_from(cs, j)
        }
    }
}

/// The tokens of a line.
pub open spec fn tokens_of(line: Seq<char>) -> Seq<TokenInfoView> {
    tokens_from(line, 0)
}

/// The tokens read from index `pos` on lie at or after `pos`, in order and
/// without overlap, and each one's text is the characters of the line at
/// its position.
proof fn lemma_tokens_from_in_order(cs: Seq<char>, pos: int)
    requires
        0 <= pos,
        cs.len() <= usize::MAX,
    ensures
        ({
            let ts = tokens_from(cs, pos);
            &&& forall|i: int| 0 <= i < ts.len() ==> {
                &&& pos <= (#[trigger] ts[i]).position
                &&& ts[i].raw.len() > 0
                &&& ts[i].position + ts[i].raw.len() <= cs.len()
                &&& ts[i].raw == cs.subrange(ts[i].position as int, ts[i].position + ts[i].raw.len())
            }
            &&& forall|i: int, j: int| 0 <= i < j < ts.len() ==> (#[trigger] ts[i]).position + ts[i].raw.len() <= (#[trigger] ts[j]).position
        }),
    decreases cs.len() - pos,
{
    if pos < cs.len() {
        let c = cs[pos];
        if is_gap(c) {
            lemma_tokens_from_in_order(cs, pos + 1);
        } else if c == '#' {
        } else if c == '<' || c == '[' || c == '{' {
            let k = comment_kind(c);
            let j = scan_to(cs, pos + 1, |x: char| x == closer(k));
            lemma_scan_to(cs, pos + 1, |x: char| x == closer(k));
            let end = if j < cs.len() { j + 1 } else { j };
            lemma_tokens_from_in_order(cs, end);
            let head = TokenInfoView {
                token: TokenView::Comment { kind: k, content: cs.subrange(pos + 1, j) },
                position: pos as usize,
                raw: cs.subrange(pos, end),
            };
            let rest = tokens_from(cs, end);
            let ts = tokens_from(cs, pos);
            assert(ts == seq![head] + rest);
            assert(head.position == pos);
            assert forall|i: int| 0 < i < ts.len() implies ts[i] == rest[i - 1] by {}
        } else {
            let j = scan_to(cs, pos, |x: char| ends_word(x));
            lemma_scan_to(cs, pos, |x: char| ends_word(x));
            assert(!ends_word(cs[pos]));
            lemma_tokens_from_in_order(cs, j);
            let head = TokenInfoView {
                token: classify(cs.subrange(pos, j)),
                position: pos as usize,
                raw: cs.subrange(pos, j),
            };
            let rest = tokens_from(cs, j);
            let ts = tokens_from(cs, pos);
            assert(ts == seq![head] + rest);
            assert(head.position == pos);
            assert forall|i: int| 0 < i < ts.len() implies ts[i] == rest[i - 1] by {}
        }
    }
}

/// The tokens of a line come in order of position, without overlap, and
/// each one's text is the characters of the line at its position.
pub proof fn lemma_tokens_in_order(line: Seq<char>)
    requires
        line.len() <= usize::MAX,
    ensures
        forall|i: int| 0 <= i < tokens_of(line).len() ==> {
            &&& (#[trigger] tokens_of(line)[i]).raw.len() > 0
            &&& tokens_of(line)[i].raw == line.subrange(
                tokens_of(line)[i].position as int,
                tokens_of(line)[i].position + tokens_of(line)[i].raw.len(),
            )
        },
        forall|i: int, j: int| 0 <= i < j < tokens_of(line).len() ==>
            (#[trigger] tokens_of(line)[i]).position + tokens_of(line)[i].raw.len() <= (#[trigger] tokens_of(line)[j]).position,
{
    lemma_tokens_from_in_order(line, 0);
}

/// Splits a line into tokens (see `tokens_from`).
pub fn tokenize(line: &str) -> (r: Vec<TokenInfo>)
    ensures
        token_views(r@) == tokens_of(line@),
{
    let cs = chars_of(line);
    let n = cs.len();
    let mut tokens: Vec<TokenInfo> = Vec::new();
    let mut pos: usize = 0;
    assert(token_views(tokens@) =~= Seq::<TokenInfoView>::empty());
    while pos < n
        invariant
            pos <= n == cs@.len(),
            cs@ == line@,
            token_views(tokens@) + tokens_from(cs@, pos as int) == tokens_of(line@),
        ensures
            token_views(tokens@) == tokens_of(line@),
        decreases n - pos,
    {
        let c = cs[pos];
        let ghost before = token_views(tokens@);
        if c == ' ' || c == '\u{3000}' {
            pos = pos + 1;
        } else if c == '#' {
            assert(tokens_from(cs@, pos as int) =~= Seq::<TokenInfoView>::empty());
            assert(before + tokens_from(cs@, pos as int) =~= before);
            break;
        } else if c == '<' || c == '[' || c == '{' {
            let kind = if c == '<' {
                CommentKind::Angle
            } else if c == '[' {
                CommentKind::Square
            } else {
                CommentKind::Curly
            };
            let close = if c == '<' {
                '>'
            } else if c == '[' {
                ']'
            } else {
                '}'
            };
            let ghost stop = |x: char| x == closer(kind);
            proof {
                lemma_scan_to(cs@, pos + 1, stop);
            }
            let start = pos;
            let mut j = pos + 1;
            while j < n && cs[j] != close
                invariant
                    start + 1 <= j <= n == cs@.len(),
                    close == closer(kind),
                    stop == (|x: char| x == closer(kind)),
                    scan_to(cs@, start + 1, stop) == scan_to(cs@, j as int, stop),
                decreases n - j,
            {
                j = j + 1;
            }
            let end = if j < n { j + 1 } else { j };
            let content = string_of(sub_chars(cs.as_slice(), start + 1, j).as_slice());
            let raw = string_of(sub_chars(cs.as_slice(), start, end).as_slice());
            let ti = TokenInfo { token: Token::Comment { kind, content }, position: start, raw };
            tokens.push(ti);
            pos = end;
            proof {
                assert(token_views(tokens@) =~= before.push(ti@));
                assert(tokens_from(cs@, start as int) == seq![ti@] + tokens_from(cs@, pos as int));
                assert(before + tokens_from(cs@, start as int) =~= token_views(tokens@)
                    + tokens_from(cs@, pos as int));
            }
        } else {
            let ghost stop = |x: char| ends_word(x);
            proof {
                lemma_scan_to(cs@, pos as int, stop);
            }
            let start = pos;
            let mut j = pos;
            while j < n && !(cs[j] == ' ' || cs[j] == '\u{3000}' || cs[j] == '#' || cs[j] == '<'
                || cs[j] == '[' || cs[j] == '{')
                invariant
                    start <= j <= n == cs@.len(),
                    stop == (|x: char| ends_word(x)),
                    scan_to(cs@, start as int, stop) == scan_to(cs@, j as int, stop),
                decreases n - j,
            {
                j = j + 1;
            }
            let word = string_of(sub_chars(cs.as_slice(), start, j).as_slice());
            let token = classify_token(word.as_str());
            let ti = TokenInfo { token, position: start, raw: word };
            tokens.push(ti);
            pos = j;
            proof {
                assert(token_views(tokens@) =~= before.push(ti@));
                assert(tokens_from(cs@, start as int) == seq![ti@] + tokens_from(cs@, pos as int));
                assert(before + tokens_from(cs@, start as int) =~= token_views(tokens@)
                    + tokens_from(cs@, pos as int));
            }
        }
    }
    tokens
}

/// A plain callsign (`RE_CALLSIGN`).
pub open spec fn plain_call(s: Seq<char>) -> bool {
    regex_matches(RE_CALLSIGN@, s)
}

/// The parts of a callsign, upper-cased: the whole, the base call, the
/// portable designator and "QRP" where it is given. A single call is its own
/// base; of CALL/X the call is the base and X the portable part ("QRP" goes
/// to the fourth part); of PREFIX/CALL the call; of CALL/X/P or CALL/X/QRP
/// the call, with "P" or X as portable part; of PREFIX/CALL/X the call.
/// `None` when no part that the form allows is a plain callsign.
pub open spec fn callsign_parts(call: Seq<char>) -> Option<(Seq<char>, Seq<char>, Seq<char>, Seq<char>)> {
    let up = str_upper(call);
    let p = split_on(up, '/');
    let e = Seq::<char>::empty();
    if p.len() == 1 {
        if plain_call(up) {
            Some((up, up, e, e))
        } else {
            None
        }
    } else if p.len() == 2 {
        let a = p[0];
        let b = p[1];
        if plain_call(a) && b.len() == 1 && char_numeric(b[0]) {
            Some((up, a, b, e))
        } else if plain_call(a) {
            if b == "P"@ {
                Some((up, a, "P"@, e))
            } else if b == "QRP"@ {
                Some((up, a, e, "QRP"@))
            } else {
                Some((up, a, b, e))
            }
        } else if plain_call(b) {
            Some((up, b, a, e))
        } else {
            None
        }
    } else if p.len() == 3 {
        let a = p[0];
        let b = p[1];
        let c = p[2];
        let qrp = if c == "QRP"@ { "QRP"@ } else { e };
        if plain_call(a) && (c == "P"@ || c == "QRP"@) {
            Some((up, a, if c == "P"@ { "P"@ } else { b }, qrp))
        } else if plain_call(b) {
            Some((up, b, a, qrp))
        } else {
            None
        }
    } else {
        None
    }
}

/// The plain values of a four-part callsign reading.
pub open spec fn parts4_view(r: Option<(String, String, String, String)>) -> Option<(Seq<char>, Seq<char>, Seq<char>, Seq<char>)> {
    match r {
        Some(t) => Some((t.0@, t.1@, t.2@, t.3@)),
        None => None,
    }
}

/// Reads a callsign into its parts (see `callsign_parts`).
pub fn parse_callsign(call: &str) -> (r: Option<(String, String, String, String)>)
    ensures
        parts4_view(r) == callsign_parts(call@),
{
    let up = to_upper(call);
    let ucs = chars_of(up.as_str());
    let parts = split(ucs.as_slice(), SepKind::Char('/'));
    let ghost p = views(parts@);
    assert(p == split_on(up@, '/'));
    if parts.len() == 1 {
        if is_match(RE_CALLSIGN, up.as_str()) {
            let u2 = up.clone();
            return Some((up, u2, String::new(), String::new()));
        } else {
            return None;
        }
    } else if parts.len() == 2 {
        let a = string_of(parts[0].as_slice());
        let b = string_of(parts[1].as_slice());
        assert(a@ == p[0] && b@ == p[1]);
        let a_call = is_match(RE_CALLSIGN, a.as_str());
        if a_call && parts[1].len() == 1 && is_numeric(parts[1][0]) {
            return Some((up, a, b, String::new()));
        }
        if a_call {
            if str_eq(b.as_str(), "P") {
                return Some((up, a, String::from_str("P"), String::new()));
            }
            if str_eq(b.as_str(), "QRP") {
                return Some((up, a, String::new(), String::from_str("QRP")));
            }
            return Some((up, a, b, String::new()));
        }
        if is_match(RE_CALLSIGN, b.as_str()) {
            return Some((up, b, a, String::new()));
        }
        return None;
    } else if parts.len() == 3 {
        let a = string_of(parts[0].as_slice());
        let b = string_of(parts[1].as_slice());
        let c = string_of(parts[2].as_slice());
        assert(a@ == p[0] && b@ == p[1] && c@ == p[2]);
        let is_p = str_eq(c.as_str(), "P");
        let is_qrp = str_eq(c.as_str(), "QRP");
        let qrp = if is_qrp {
            String::from_str("QRP")
        } else {
            String::new()
        };
        if is_match(RE_CALLSIGN, a.as_str()) && (is_p || is_qrp) {
            let portable = if is_p {
                String::from_str("P")
            } else {
                b
            };
            return Some((up, a, portable, qrp));
        }
        if is_match(RE_CALLSIGN, b.as_str()) {
            return Some((up, b, a, qrp));
        }
        return None;
    }
    None
}

} // verus!
