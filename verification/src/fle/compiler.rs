//! The FLE compiler: reads the directives of a FLE text and runs a state
//! machine over the tokens of each QSO line.
use vstd::prelude::*;
use crate::calendar::{day_number, valid_ymd, ymd_of_day_number};
use crate::fle::tokenizer::{
    callsign_parts, parse_callsign, token_views, tokenize, tokens_of, CommentKind, Token,
    TokenInfo, TokenInfoView, TokenView,
};
use crate::fle::types::{
    mode_table, mode_table_get, rst_text, rst_of_digits, CurrentQsoView, FleCompileResult,
    FleCompileView,
    FleEnvView, FleEnvironment, FleErrorView, FleQsoRecord, FleQsoView, RstType, RstValue,
    RstView,
};
use crate::num::{parse_signed, parse_uint_max};
use crate::text::{
    chars_of, concat2, join, join_strings, replace, replace_all, str_eq, str_upper, string_of,
    strs, to_upper,
};

verus! {

/// What reading a line as a directive came to.
#[derive(Debug, Clone, Copy, PartialEq, Eq, Structural)]
pub enum DirectiveResult {
    /// The line was a directive and has been applied.
    Handled,
    /// The line is not a directive: it is read as a QSO line.
    NotDirective,
    /// The directive's operand was refused; the line is dropped.
    Error,
}

/// The environment with one more error.
pub open spec fn with_error(env: FleEnvView, line: usize, column: usize, msg: Seq<char>) -> FleEnvView {
    FleEnvView { errors: env.errors.push(FleErrorView { line, column, message: msg }), ..env }
}

/// A plausible date: years 1900 to 2100, months 1 to 12, days 1 to 31.
pub open spec fn date_ok(year: u16, month: u8, day: u8) -> bool {
    1900 <= year <= 2100 && 1 <= month <= 12 && 1 <= day <= 31
}

/// The texts of tokens as written.
pub open spec fn raws(ts: Seq<TokenInfoView>) -> Seq<Seq<char>> {
    ts.map_values(|t: TokenInfoView| t.raw)
}

/// The QSL message of a `qslmsg` directive: its operands joined by spaces,
/// with `$mywwff`, `$mysota` and `$mypota` replaced by the references set.
pub open spec fn qslmsg_text(tokens: Seq<TokenInfoView>, env: FleEnvView) -> Seq<char> {
    let msg = join(raws(tokens.skip(1)), " "@);
    let m1 = replace_all(msg, "$mywwff"@, env.mywwff);
    let m2 = replace_all(m1, "$mysota"@, env.mysota);
    replace_all(m2, "$mypota"@, join(env.mypota, " "@))
}

/// `mypota` reads POTA references from token `i` on, and stops at the first
/// token that is none with an error at its position.
pub open spec fn mypota_from(tokens: Seq<TokenInfoView>, i: int, env: FleEnvView, line: usize) -> FleEnvView
    decreases tokens.len() - i,
{
    if i < 0 || i >= tokens.len() {
        env
    } else {
        match tokens[i].token {
            TokenView::PotaRef(r) => mypota_from(
                tokens,
                i + 1,
                FleEnvView { mypota: env.mypota.push(r), ..env },
                line,
            ),
            _ => with_error(
                env,
                line,
                tokens[i].position,
                tokens[i].raw + " is invalid POTA ref#."@,
            ),
        }
    }
}

/// The base date and the current QSO's date set to `y-m-d`, at 00:00.
pub open spec fn with_date(env: FleEnvView, y: u16, m: u8, d: u8) -> FleEnvView {
    FleEnvView {
        year: y,
        month: m,
        day: d,
        current: CurrentQsoView { year: y, month: m, day: d, hour: 0, min: 0, ..env.current },
        ..env
    }
}

/// A directive line read against the environment `env`: what it came to and
/// the environment after it. A directive is a first token that is one of the
/// keywords below; a missing or wrong operand is recorded as an error at the
/// operand (column 1) or, when the operand is missing, at column 0.
pub open spec fn directive(tokens: Seq<TokenInfoView>, env: FleEnvView, line: usize) -> (DirectiveResult, FleEnvView) {
    let h = DirectiveResult::Handled;
    let missing = "Missing operand."@;
    if tokens.len() == 0 {
        (DirectiveResult::NotDirective, env)
    } else if let TokenView::Keyword { key, .. } = tokens[0].token {
        let has_op = tokens.len() > 1;
        let op = tokens[1];
        if key == "mycall"@ {
            (h, if !has_op {
                with_error(env, line, 0, missing)
            } else if let TokenView::Call(c) = op.token {
                let e1 = FleEnvView { mycall: c, ..env };
                match callsign_parts(c) {
                    Some(p) => FleEnvView { operator: p.1, ..e1 },
                    None => e1,
                }
            } else {
                with_error(env, line, 1, "Invalid callsign."@)
            })
        } else if key == "operator"@ {
            (h, if !has_op {
                with_error(env, line, 0, missing)
            } else if let TokenView::Call(c) = op.token {
                FleEnvView { operator: c, ..env }
            } else {
                with_error(env, line, 1, "Invalid operator."@)
            })
        } else if key == "mysota"@ {
            (h, if !has_op {
                with_error(env, line, 0, "Missing SOTA ref#."@)
            } else if let TokenView::SotaRef(r) = op.token {
                FleEnvView { mysota: r, ..env }
            } else {
                with_error(env, line, 1, op.raw + " is invalid SOTA ref#."@)
            })
        } else if key == "mywwff"@ {
            (h, if !has_op {
                with_error(env, line, 0, "Missing WWFF ref#."@)
            } else if let TokenView::WwffRef(r) = op.token {
                FleEnvView { mywwff: r, ..env }
            } else {
                with_error(env, line, 1, op.raw + " is invalid WWFF ref#."@)
            })
        } else if key == "mypota"@ {
            (h, if !has_op {
                with_error(env, line, 0, "Missing POTA ref#."@)
            } else {
                mypota_from(tokens, 1, env, line)
            })
        } else if key == "date"@ {
            (h, if !has_op {
                with_error(env, line, 0, missing)
            } else {
                match op.token {
                    TokenView::Date { year, month, day } => if date_ok(year, month, day) {
                        with_date(env, year, month, day)
                    } else {
                        with_error(env, line, 1, "Date out of range."@)
                    },
                    TokenView::Date2 { month, day } => if date_ok(env.year, month, day) {
                        with_date(env, env.year, month, day)
                    } else {
                        with_error(env, line, 1, "Date out of range."@)
                    },
                    _ => with_error(env, line, 1, "Wrong date format."@),
                }
            })
        } else if key == "day"@ {
            if !has_op {
                (h, with_error(env, line, 0, "Missing operand +/++."@))
            } else if let TokenView::Literal(lit) = op.token {
                if lit != "+"@ && lit != "++"@ {
                    (DirectiveResult::Error, with_error(env, line, 1, "Unknown operand."@))
                } else {
                    let days: int = if lit == "+"@ { 1 } else { 2 };
                    if valid_ymd(env.year as int, env.month as int, env.day as int) {
                        let t = ymd_of_day_number(
                            day_number(env.year as int, env.month as int, env.day as int) + days,
                        );
                        (h, with_date(env, t.0 as u16, t.1 as u8, t.2 as u8))
                    } else {
                        (h, with_error(env, line, 1, "Date out of range."@))
                    }
                }
            } else {
                (h, with_error(env, line, 1, "Missing operand +/++."@))
            }
        } else if key == "timezone"@ {
            (h, if !has_op {
                with_error(env, line, 0, "Missing timezone. (eg. +9)"@)
            } else if let TokenView::Snr(tz) = op.token {
                match parse_signed(tz) {
                    Some(v) => if i32::MIN <= v <= i32::MAX {
                        FleEnvView { timezone: Some(v as i32), ..env }
                    } else {
                        with_error(env, line, 1, tz + " is invalid timezone."@)
                    },
                    None => with_error(env, line, 1, tz + " is invalid timezone."@),
                }
            } else {
                with_error(env, line, 1, op.raw + " is invalid timezone."@)
            })
        } else if key == "nickname"@ {
            (h, if !has_op {
                with_error(env, line, 0, missing)
            } else {
                FleEnvView { nickname: op.raw, ..env }
            })
        } else if key == "rigset"@ {
            (h, if !has_op {
                with_error(env, line, 0, missing)
            } else if let TokenView::Decimal { value, .. } = op.token {
                match parse_uint_max(value, 255) {
                    Some(v) => FleEnvView {
                        rigset: v as u8,
                        current: CurrentQsoView { rigset: v as u8, ..env.current },
                        ..env
                    },
                    None => with_error(env, line, 1, "Invalid Rig set#."@),
                }
            } else {
                with_error(env, line, 1, "Invalid Rig set#."@)
            })
        } else if key == "number"@ {
            (h, if !has_op {
                with_error(env, line, 0, missing)
            } else if let TokenView::Keyword { key: k2, .. } = op.token {
                if k2 == "consecutive"@ {
                    FleEnvView { contest_num: Some(1u32), ..env }
                } else {
                    env
                }
            } else {
                FleEnvView { contest_lit: Some(str_upper(op.raw)), ..env }
            })
        } else if key == "qslmsg"@ {
            (h, if has_op {
                FleEnvView { qslmsg: qslmsg_text(tokens, env), ..env }
            } else {
                env
            })
        } else if key == "qslmsg2"@ {
            (h, if has_op {
                FleEnvView { qslmsg2: join(raws(tokens.skip(1)), " "@), ..env }
            } else {
                env
            })
        } else {
            (DirectiveResult::NotDirective, env)
        }
    } else {
        (DirectiveResult::NotDirective, env)
    }
}

fn raws_of(tokens: &Vec<TokenInfo>, from: usize) -> (r: Vec<String>)
    requires
        from <= tokens@.len(),
    ensures
        strs(r@) == raws(token_views(tokens@).skip(from as int)),
{
    let ghost tv = token_views(tokens@);
    let mut r: Vec<String> = Vec::new();
    let mut i = from;
    while i < tokens.len()
        invariant
            from <= i <= tokens@.len(),
            tv == token_views(tokens@),
            strs(r@) == raws(tv.skip(from as int).take(i - from)),
        decreases tokens.len() - i,
    {
        let ghost before = strs(r@);
        r.push(tokens[i].raw.clone());
        assert(strs(r@) =~= before.push(tv[i as int].raw));
        i = i + 1;
        assert(raws(tv.skip(from as int).take(i - from)) =~= raws(tv.skip(from as int).take(i - 1
            - from)).push(tv[i - 1].raw));
    }
    assert(tv.skip(from as int).take(tokens@.len() - from) =~= tv.skip(from as int));
    r
}

fn mypota_exec(tokens: &Vec<TokenInfo>, env: &mut FleEnvironment, line: usize)
    requires
        tokens@.len() > 1,
    ensures
        final(env)@ == mypota_from(token_views(tokens@), 1, old(env)@, line),
{
    let ghost tv = token_views(tokens@);
    let mut i: usize = 1;
    while i < tokens.len()
        invariant
            1 <= i <= tokens@.len(),
            tv == token_views(tokens@),
            mypota_from(tv, 1, old(env)@, line) == mypota_from(tv, i as int, env@, line),
        decreases tokens.len() - i,
    {
        match &tokens[i].token {
            Token::PotaRef(r) => {
                let ghost before = env@;
                env.mypota.push(r.clone());
                assert(env@ == FleEnvView { mypota: before.mypota.push(r@), ..before }) by {
                    assert(env@.mypota =~= before.mypota.push(r@));
                }
            },
            _ => {
                let msg = concat2(tokens[i].raw.as_str(), " is invalid POTA ref#.");
                env.add_error(line, tokens[i].position, msg.as_str());
                return;
            },
        }
        i = i + 1;
    }
}

fn set_date(env: &mut FleEnvironment, y: u16, m: u8, d: u8)
    ensures
        final(env)@ == with_date(old(env)@, y, m, d),
{
    env.year = y;
    env.month = m;
    env.day = d;
    env.current.year = y;
    env.current.month = m;
    env.current.day = d;
    env.current.hour = 0;
    env.current.min = 0;
}

fn parse_i32(s: &str) -> (r: Option<i32>)
    ensures
        r == (match parse_signed(s@) {
            Some(v) => if i32::MIN <= v <= i32::MAX { Some(v as i32) } else { None::<i32> },
            None => None::<i32>,
        }),
{
    let cs = chars_of(s);
    match crate::num::parse_i64(cs.as_slice()) {
        Some(v) => if -2147483648 <= v && v <= 2147483647 { Some(v as i32) } else { None },
        None => None,
    }
}

fn parse_unsigned_max(s: &str, max: u64) -> (r: Option<u64>)
    ensures
        r == (match parse_uint_max(s@, max as nat) {
            Some(v) => Some(v as u64),
            None => None::<u64>,
        }),
{
    let cs = chars_of(s);
    match crate::num::parse_u64(cs.as_slice()) {
        Some(v) => if v <= max { Some(v) } else { None },
        None => {
            proof {
                if let Some(v) = parse_uint_max(s@, max as nat) {
                    assert(parse_uint_max(s@, u64::MAX as nat) == Some(v));
                }
            }
            None
        },
    }
}

/// Reads a line as a directive (see `directive`).
fn process_directive(tokens: &Vec<TokenInfo>, env: &mut FleEnvironment, line: usize) -> (r: DirectiveResult)
    ensures
        (r, final(env)@) == directive(token_views(tokens@), old(env)@, line),
{
    let ghost tv = token_views(tokens@);
    if tokens.len() == 0 {
        return DirectiveResult::NotDirective;
    }
    let key = match &tokens[0].token {
        Token::Keyword { key, .. } => key,
        _ => {
            return DirectiveResult::NotDirective;
        },
    };
    let has_op = tokens.len() > 1;
    assert(has_op ==> tv[1] == tokens@[1]@);
    if str_eq(key.as_str(), "mycall") {
        if !has_op {
            env.add_error(line, 0, "Missing operand.");
        } else if let Token::Call(call) = &tokens[1].token {
            env.mycall = call.clone();
            if let Some(parts) = parse_callsign(call.as_str()) {
                env.operator = parts.1;
            }
        } else {
            env.add_error(line, 1, "Invalid callsign.");
        }
        DirectiveResult::Handled
    } else if str_eq(key.as_str(), "operator") {
        if !has_op {
            env.add_error(line, 0, "Missing operand.");
        } else if let Token::Call(call) = &tokens[1].token {
            env.operator = call.clone();
        } else {
            env.add_error(line, 1, "Invalid operator.");
        }
        DirectiveResult::Handled
    } else if str_eq(key.as_str(), "mysota") {
        if !has_op {
            env.add_error(line, 0, "Missing SOTA ref#.");
        } else if let Token::SotaRef(r) = &tokens[1].token {
            env.mysota = r.clone();
        } else {
            let msg = concat2(tokens[1].raw.as_str(), " is invalid SOTA ref#.");
            env.add_error(line, 1, msg.as_str());
        }
        DirectiveResult::Handled
    } else if str_eq(key.as_str(), "mywwff") {
        if !has_op {
            env.add_error(line, 0, "Missing WWFF ref#.");
        } else if let Token::WwffRef(r) = &tokens[1].token {
            env.mywwff = r.clone();
        } else {
            let msg = concat2(tokens[1].raw.as_str(), " is invalid WWFF ref#.");
            env.add_error(line, 1, msg.as_str());
        }
        DirectiveResult::Handled
    } else if str_eq(key.as_str(), "mypota") {
        if !has_op {
            env.add_error(line, 0, "Missing POTA ref#.");
        } else {
            mypota_exec(tokens, env, line);
        }
        DirectiveResult::Handled
    } else if str_eq(key.as_str(), "date") {
        if !has_op {
            env.add_error(line, 0, "Missing operand.");
        } else {
            match &tokens[1].token {
                Token::Date { year, month, day } => {
                    if 1900 <= *year && *year <= 2100 && 1 <= *month && *month <= 12 && 1 <= *day
                        && *day <= 31 {
                        set_date(env, *year, *month, *day);
                    } else {
                        env.add_error(line, 1, "Date out of range.");
                    }
                },
                Token::Date2 { month, day } => {
                    let y = env.year;
                    if 1900 <= y && y <= 2100 && 1 <= *month && *month <= 12 && 1 <= *day && *day
                        <= 31 {
                        set_date(env, y, *month, *day);
                    } else {
                        env.add_error(line, 1, "Date out of range.");
                    }
                },
                _ => {
                    env.add_error(line, 1, "Wrong date format.");
                },
            }
        }
        DirectiveResult::Handled
    } else if str_eq(key.as_str(), "day") {
        if !has_op {
            env.add_error(line, 0, "Missing operand +/++.");
            return DirectiveResult::Handled;
        }
        if let Token::Literal(lit) = &tokens[1].token {
            let one = str_eq(lit.as_str(), "+");
            let two = str_eq(lit.as_str(), "++");
            if !one && !two {
                env.add_error(line, 1, "Unknown operand.");
                return DirectiveResult::Error;
            }
            let days: i32 = if one { 1 } else { 2 };
            match crate::calendar::ymd_to_day_number(env.year as i32, env.month as u32, env.day as u32) {
                Some(n) => {
                    proof {
                        crate::fle::types::lemma_day_number_bounds(
                            env.year as int,
                            env.month as int,
                            env.day as int,
                        );
                    }
                    match crate::calendar::day_number_to_ymd(n + days) {
                        Some(t) => {
                            set_date(env, t.0 as u16, t.1 as u8, t.2 as u8);
                        },
                        None => {
                            env.add_error(line, 1, "Date out of range.");
                        },
                    }
                },
                None => {
                    env.add_error(line, 1, "Date out of range.");
                },
            }
        } else {
            env.add_error(line, 1, "Missing operand +/++.");
        }
        DirectiveResult::Handled
    } else if str_eq(key.as_str(), "timezone") {
        if !has_op {
            env.add_error(line, 0, "Missing timezone. (eg. +9)");
        } else if let Token::Snr(tz) = &tokens[1].token {
            match parse_i32(tz.as_str()) {
                Some(v) => {
                    env.timezone = Some(v);
                },
                None => {
                    let msg = concat2(tz.as_str(), " is invalid timezone.");
                    env.add_error(line, 1, msg.as_str());
                },
            }
        } else {
            let msg = concat2(tokens[1].raw.as_str(), " is invalid timezone.");
            env.add_error(line, 1, msg.as_str());
        }
        DirectiveResult::Handled
    } else if str_eq(key.as_str(), "nickname") {
        if !has_op {
            env.add_error(line, 0, "Missing operand.");
        } else {
            env.nickname = tokens[1].raw.clone();
        }
        DirectiveResult::Handled
    } else if str_eq(key.as_str(), "rigset") {
        if !has_op {
            env.add_error(line, 0, "Missing operand.");
        } else if let Token::Decimal { value, .. } = &tokens[1].token {
            match parse_unsigned_max(value.as_str(), 255) {
                Some(v) => {
                    env.rigset = v as u8;
                    env.current.rigset = v as u8;
                },
                None => {
                    env.add_error(line, 1, "Invalid Rig set#.");
                },
            }
        } else {
            env.add_error(line, 1, "Invalid Rig set#.");
        }
        DirectiveResult::Handled
    } else if str_eq(key.as_str(), "number") {
        if !has_op {
            env.add_error(line, 0, "Missing operand.");
        } else if let Token::Keyword { key: k2, .. } = &tokens[1].token {
            if str_eq(k2.as_str(), "consecutive") {
                env.contest_num = Some(1);
            }
        } else {
            env.contest_lit = Some(to_upper(tokens[1].raw.as_str()));
        }
        DirectiveResult::Handled
    } else if str_eq(key.as_str(), "qslmsg") {
        if has_op {
            let parts = raws_of(tokens, 1);
            let msg = join_strings(&parts, " ");
            let mcs = chars_of(msg.as_str());
            let k1 = chars_of("$mywwff");
            let v1 = chars_of(env.mywwff.as_str());
            proof {
                reveal_strlit("$mywwff");
                reveal_strlit("$mysota");
                reveal_strlit("$mypota");
            }
            let m1 = replace(mcs.as_slice(), k1.as_slice(), v1.as_slice());
            let k2 = chars_of("$mysota");
            let v2 = chars_of(env.mysota.as_str());
            let m2 = replace(m1.as_slice(), k2.as_slice(), v2.as_slice());
            let k3 = chars_of("$mypota");
            let pj = join_strings(&env.mypota, " ");
            let v3 = chars_of(pj.as_str());
            let m3 = replace(m2.as_slice(), k3.as_slice(), v3.as_slice());
            env.qslmsg = string_of(m3.as_slice());
        }
        DirectiveResult::Handled
    } else if str_eq(key.as_str(), "qslmsg2") {
        if has_op {
            let parts = raws_of(tokens, 1);
            env.qslmsg2 = join_strings(&parts, " ");
        }
        DirectiveResult::Handled
    } else {
        DirectiveResult::NotDirective
    }
}

/// The states of the QSO line machine.
#[derive(Debug, Clone, Copy, PartialEq, Eq, Structural)]
pub enum FsmState {
    /// Any token is read.
    Norm,
    /// A band was read: a frequency may follow.
    Freq,
    /// A callsign was read: the report sent may follow.
    RstSent,
    /// The report sent was read: the report received may follow.
    RstRcvd,
}

/// A rank that falls when the machine moves without reading a token.
pub open spec fn state_rank(s: FsmState) -> int {
    match s {
        FsmState::Norm => 0,
        FsmState::Freq => 1,
        FsmState::RstRcvd => 1,
        FsmState::RstSent => 2,
    }
}

/// The wavelength of a frequency, when it lies in a band.
pub open spec fn freq_wavelength(f: Seq<char>) -> Option<&'static str> {
    match crate::logconv::types::band_index_from(crate::logconv::types::freq_head(f), 0) {
        Some(i) => Some(crate::logconv::types::band_row(i).4),
        None => None,
    }
}

/// The time of day after a number of `digits` digits: one digit sets the
/// last digit of the minute, two the minute (mod 60), three the last digit
/// of the hour and the minute, four the hour and minute. An unreadable
/// number counts as 0.
pub open spec fn with_time(c: CurrentQsoView, digits: usize, value: Seq<char>) -> CurrentQsoView {
    let v = crate::fle::tokenizer::parse_or(value, 4294967295, 0) as u32;
    if digits == 1 {
        CurrentQsoView { min: (((c.min / 10) * 10) as u8).wrapping_add((v % 10) as u8), ..c }
    } else if digits == 2 {
        CurrentQsoView { min: (v % 60) as u8, ..c }
    } else if digits == 3 {
        CurrentQsoView {
            hour: (((c.hour / 10) * 10) as u8).wrapping_add((v / 100) as u8),
            min: (v % 100 % 60) as u8,
            ..c
        }
    } else if digits == 4 {
        CurrentQsoView { hour: (v / 100) as u8, min: (v % 100 % 60) as u8, ..c }
    } else {
        c
    }
}

/// The default report of a mode: by the mode table, RST when unknown.
pub open spec fn default_rst(mode: Seq<char>) -> RstView {
    match mode_table(crate::text::str_lower(mode)) {
        Some(RstType::Rs) => RstView::Rs { r: 5, s: 9 },
        Some(RstType::Snr) => RstView::Snr("-10"@),
        _ => crate::fle::types::rst_599(),
    }
}

/// The default report of a QSO follows its mode's report type: a phone
/// (RS) mode gets the two digits "59", an S/N mode "-10", and any other
/// mode, RST or unknown, the three digits "599".
pub proof fn lemma_default_report_by_mode(mode: Seq<char>)
    ensures
        mode_table(crate::text::str_lower(mode)) == Some(RstType::Rs) ==> rst_text(default_rst(mode)) == "59"@,
        mode_table(crate::text::str_lower(mode)) == Some(RstType::Snr) ==> rst_text(default_rst(mode)) == "-10"@,
        mode_table(crate::text::str_lower(mode)) == Some(RstType::Rst) ==> rst_text(default_rst(mode)) == "599"@,
        mode_table(crate::text::str_lower(mode)) is None ==> rst_text(default_rst(mode)) == "599"@,
{
    reveal_strlit("59");
    reveal_strlit("599");
    reveal_strlit("-10");
    assert(crate::num::dec(5) =~= seq!['5']);
    assert(crate::num::dec(9) =~= seq!['9']);
    assert(seq!['5'] + seq!['9'] =~= "59"@);
    assert(seq!['5'] + seq!['9'] + seq!['9'] =~= "599"@);
}

/// The environment with the current QSO replaced.
pub open spec fn with_current(env: FleEnvView, c: CurrentQsoView) -> FleEnvView {
    FleEnvView { current: c, ..env }
}

/// A contest number written with at least three digits.
pub open spec fn num3(n: nat) -> Seq<char> {
    crate::num::pad0(crate::num::dec(n), 3)
}

/// One token read in the `Norm` state: the next position and state and the
/// environment after it.
pub open spec fn norm_step(tokens: Seq<TokenInfoView>, line: usize, pos: int, env: FleEnvView) -> (int, FsmState, FleEnvView) {
    let c = env.current;
    let n = FsmState::Norm;
    match tokens[pos].token {
        TokenView::Mode(m) => (pos + 1, n, with_current(env, CurrentQsoView { mode: m, ..c })),
        TokenView::Band { band, freq } => (
            pos + 1,
            FsmState::Freq,
            with_current(env, CurrentQsoView { band: band, freq: freq, ..c }),
        ),
        TokenView::Freq(f) => (pos + 1, n, match freq_wavelength(f) {
            Some(w) => with_current(env, CurrentQsoView { freq: f, band: w@, ..c }),
            None => with_error(
                with_current(env, CurrentQsoView { freq: f, ..c }),
                line,
                pos as usize,
                "Unknown band."@,
            ),
        }),
        TokenView::Decimal { digits, value } => (
            pos + 1,
            n,
            with_current(env, with_time(c, digits, value)),
        ),
        TokenView::Call(call) => {
            let e1 = if c.call.len() > 0 {
                with_error(
                    env,
                    line,
                    pos as usize,
                    "Each line must contains only one callsign: "@ + call,
                )
            } else {
                env
            };
            let e2 = if c.band.len() == 0 && c.freq.len() == 0 {
                with_error(e1, line, pos as usize, "Band or frequency must be specified before QSO."@)
            } else {
                e1
            };
            let d = default_rst(c.mode);
            (
                pos + 1,
                FsmState::RstSent,
                with_current(e2, CurrentQsoView { call: call, rst_sent: d, rst_rcvd: d, ..c }),
            )
        },
        TokenView::WwffRef(r) => (pos + 1, n, with_current(env, CurrentQsoView { his_wwff: r, ..c })),
        TokenView::SotaRef(r) => (pos + 1, n, with_current(env, CurrentQsoView { his_sota: r, ..c })),
        TokenView::PotaRef(r) => (
            pos + 1,
            n,
            with_current(env, CurrentQsoView { his_pota: c.his_pota.push(r), ..c }),
        ),
        TokenView::ContestSent(num) => (pos + 1, n, match env.contest_num {
            Some(cn) => match parse_uint_max(num, 4294967295) {
                Some(v) => FleEnvView {
                    current: CurrentQsoView { his_num: num3(v), ..c },
                    contest_num: Some((v as u32).wrapping_add(1)),
                    ..env
                },
                None => env,
            },
            None => if env.contest_lit is Some {
                with_current(env, CurrentQsoView { his_num: str_upper(num), ..c })
            } else {
                env
            },
        }),
        TokenView::ContestRcvd(num) => {
            let e1 = with_current(env, CurrentQsoView { my_num: num, ..c });
            (pos + 1, n, if c.his_num.len() > 0 {
                e1
            } else {
                match env.contest_num {
                    Some(cn) => FleEnvView {
                        current: CurrentQsoView { his_num: num3(cn as nat), ..e1.current },
                        contest_num: Some(cn.wrapping_add(1)),
                        ..e1
                    },
                    None => match env.contest_lit {
                        Some(lit) => with_current(e1, CurrentQsoView { his_num: lit, ..e1.current }),
                        None => e1,
                    },
                }
            })
        },
        TokenView::Literal(lit) => {
            let e1 = with_current(env, CurrentQsoView { qso_msg: lit, ..c });
            if pos + 1 < tokens.len() && tokens[pos + 1].token is Literal {
                (
                    pos + 2,
                    n,
                    with_current(
                        e1,
                        CurrentQsoView { qso_rmks: tokens[pos + 1].token->Literal_0, ..e1.current },
                    ),
                )
            } else {
                (pos + 1, n, e1)
            }
        },
        TokenView::Unknown(u) => (
            pos + 1,
            n,
            with_error(env, line, pos as usize, "Unknown literal: "@ + u),
        ),
        _ => (pos + 1, n, env),
    }
}

/// One step of the QSO line machine at token `pos` in state `st`: a comment
/// is taken in any state; in `Freq` a frequency may follow the band; in
/// `RstSent` and `RstRcvd` a number or S/N is a report; any other token
/// sends the machine back to `Norm` without being read.
pub open spec fn qso_step(tokens: Seq<TokenInfoView>, line: usize, pos: int, st: FsmState, env: FleEnvView) -> (int, FsmState, FleEnvView) {
    let c = env.current;
    let t = tokens[pos].token;
    if let TokenView::Comment { kind, content } = t {
        (pos + 1, st, with_current(env, match kind {
            CommentKind::Angle => CurrentQsoView { qso_msg: content, ..c },
            CommentKind::Square => CurrentQsoView { qsl_msg: content, ..c },
            CommentKind::Curly => CurrentQsoView { qso_rmks: content, ..c },
        }))
    } else {
        match st {
            FsmState::Norm => norm_step(tokens, line, pos, env),
            FsmState::Freq => if let TokenView::Freq(f) = t {
                (pos + 1, FsmState::Norm, match freq_wavelength(f) {
                    Some(w) => with_current(env, CurrentQsoView { freq: f, band: w@, ..c }),
                    None => with_error(
                        with_current(env, CurrentQsoView { freq: f, ..c }),
                        line,
                        pos as usize,
                        "Out of the band."@,
                    ),
                })
            } else {
                (pos, FsmState::Norm, env)
            },
            FsmState::RstSent => match t {
                TokenView::Decimal { digits, value } => {
                    let v = crate::fle::tokenizer::parse_or(value, 4294967295, 59) as u32;
                    (
                        pos + 1,
                        FsmState::RstRcvd,
                        with_current(env, CurrentQsoView { rst_sent: rst_of_digits(v, digits), ..c }),
                    )
                },
                TokenView::Snr(x) => (
                    pos + 1,
                    FsmState::RstRcvd,
                    with_current(env, CurrentQsoView { rst_sent: RstView::Snr(x), ..c }),
                ),
                _ => (pos, FsmState::Norm, env),
            },
            FsmState::RstRcvd => match t {
                TokenView::Decimal { digits, value } => {
                    let v = crate::fle::tokenizer::parse_or(value, 4294967295, 59) as u32;
                    (
                        pos + 1,
                        FsmState::Norm,
                        with_current(env, CurrentQsoView { rst_rcvd: rst_of_digits(v, digits), ..c }),
                    )
                },
                TokenView::Snr(x) => (
                    pos + 1,
                    FsmState::Norm,
                    with_current(env, CurrentQsoView { rst_rcvd: RstView::Snr(x), ..c }),
                ),
                _ => (pos, FsmState::Norm, env),
            },
        }
    }
}

/// The machine run from token `pos` in state `st` to the end of the line.
pub open spec fn qso_run(tokens: Seq<TokenInfoView>, line: usize, pos: int, st: FsmState, env: FleEnvView) -> FleEnvView
    decreases tokens.len() - pos, state_rank(st),
{
    if pos < 0 || pos >= tokens.len() {
        env
    } else {
        let (p2, s2, e2) = qso_step(tokens, line, pos, st, env);
        proof {
            lemma_qso_step_progress(tokens, line, pos, st, env);
        }
        qso_run(tokens, line, p2, s2, e2)
    }
}

/// Each step reads a token or falls to a lower state, and stays in the line.
pub proof fn lemma_qso_step_progress(tokens: Seq<TokenInfoView>, line: usize, pos: int, st: FsmState, env: FleEnvView)
    requires
        0 <= pos < tokens.len(),
    ensures
        ({
            let (p2, s2, e2) = qso_step(tokens, line, pos, st, env);
            pos <= p2 <= tokens.len() && (p2 > pos || state_rank(s2) < state_rank(st))
        }),
{
}

fn apply_time(env: &mut FleEnvironment, digits: usize, value: &str)
    ensures
        final(env)@ == with_current(old(env)@, with_time(old(env)@.current, digits, value@)),
{
    let v: u32 = match parse_unsigned_max(value, 4294967295) {
        Some(x) => x as u32,
        None => 0,
    };
    if digits == 1 {
        env.current.min = ((env.current.min / 10) * 10).wrapping_add((v % 10) as u8);
    } else if digits == 2 {
        env.current.min = (v % 60) as u8;
    } else if digits == 3 {
        let h = (v / 100) as u8;
        let m = (v % 100 % 60) as u8;
        env.current.hour = ((env.current.hour / 10) * 10).wrapping_add(h);
        env.current.min = m;
    } else if digits == 4 {
        let h = (v / 100) as u8;
        let m = (v % 100 % 60) as u8;
        env.current.hour = h;
        env.current.min = m;
    }
}

fn default_rst_exec(mode: &str) -> (r: RstValue)
    ensures
        r@ == default_rst(mode@),
{
    let low = crate::text::to_lower(mode);
    match mode_table_get(low.as_str()) {
        Some(RstType::Rs) => RstValue::default_rs(),
        Some(RstType::Snr) => RstValue::default_snr(),
        _ => RstValue::default(),
    }
}

fn apply_freq(env: &mut FleEnvironment, f: &String, line: usize, pos: usize, msg: &str)
    ensures
        final(env)@ == (match freq_wavelength(f@) {
            Some(w) => with_current(old(env)@, CurrentQsoView { freq: f@, band: w@, ..old(env)@.current }),
            None => with_error(
                with_current(old(env)@, CurrentQsoView { freq: f@, ..old(env)@.current }),
                line,
                pos,
                msg@,
            ),
        }),
{
    env.current.freq = f.clone();
    match crate::logconv::types::freq_to_band(f.as_str()) {
        Ok(t) => {
            env.current.band = crate::text::copy_str(t.2);
        },
        Err(_) => {
            env.add_error(line, pos, msg);
        },
    }
}

fn norm_exec(tokens: &Vec<TokenInfo>, line: usize, pos: usize, env: &mut FleEnvironment) -> (r: (usize, FsmState))
    requires
        pos < tokens@.len(),
    ensures
        (r.0 as int, r.1, final(env)@) == norm_step(token_views(tokens@), line, pos as int, old(env)@),
{
    let ghost tv = token_views(tokens@);
    let count = tokens.len();
    assert(tv[pos as int] == tokens@[pos as int]@);
    let n = FsmState::Norm;
    match &tokens[pos].token {
        Token::Mode(m) => {
            env.current.mode = m.clone();
            (pos + 1, n)
        },
        Token::Band { band, freq } => {
            env.current.band = band.clone();
            env.current.freq = freq.clone();
            (pos + 1, FsmState::Freq)
        },
        Token::Freq(f) => {
            apply_freq(env, f, line, pos, "Unknown band.");
            (pos + 1, n)
        },
        Token::Decimal { digits, value } => {
            apply_time(env, *digits, value.as_str());
            (pos + 1, n)
        },
        Token::Call(call) => {
            if !env.current.call.as_str().is_empty() {
                let msg = concat2("Each line must contains only one callsign: ", call.as_str());
                env.add_error(line, pos, msg.as_str());
            }
            if env.current.band.as_str().is_empty() && env.current.freq.as_str().is_empty() {
                env.add_error(line, pos, "Band or frequency must be specified before QSO.");
            }
            env.current.call = call.clone();
            let d = default_rst_exec(env.current.mode.as_str());
            env.current.rst_sent = d.duplicate();
            env.current.rst_rcvd = d;
            (pos + 1, FsmState::RstSent)
        },
        Token::WwffRef(r) => {
            env.current.his_wwff = r.clone();
            (pos + 1, n)
        },
        Token::SotaRef(r) => {
            env.current.his_sota = r.clone();
            (pos + 1, n)
        },
        Token::PotaRef(r) => {
            let ghost before = env@.current.his_pota;
            env.current.his_pota.push(r.clone());
            assert(env@.current.his_pota =~= before.push(r@));
            (pos + 1, n)
        },
        Token::ContestSent(num) => {
            match env.contest_num {
                Some(_) => {
                    match parse_unsigned_max(num.as_str(), 4294967295) {
                        Some(v) => {
                            env.current.his_num = crate::num::fmt_u64(v, 3);
                            env.contest_num = Some((v as u32).wrapping_add(1));
                        },
                        None => {},
                    }
                },
                None => {
                    if env.contest_lit.is_some() {
                        env.current.his_num = to_upper(num.as_str());
                    }
                },
            }
            (pos + 1, n)
        },
        Token::ContestRcvd(num) => {
            let had = !env.current.his_num.as_str().is_empty();
            env.current.my_num = num.clone();
            if !had {
                match env.contest_num {
                    Some(cn) => {
                        env.current.his_num = crate::num::fmt_u64(cn as u64, 3);
                        env.contest_num = Some(cn.wrapping_add(1));
                    },
                    None => {
                        match &env.contest_lit {
                            Some(lit) => {
                                let l = lit.clone();
                                env.current.his_num = l;
                            },
                            None => {},
                        }
                    },
                }
            }
            (pos + 1, n)
        },
        Token::Literal(lit) => {
            env.current.qso_msg = lit.clone();
            if pos + 1 < tokens.len() {
                assert(tv[pos + 1] == tokens@[pos + 1]@);
                if let Token::Literal(rmks) = &tokens[pos + 1].token {
                    env.current.qso_rmks = rmks.clone();
                    return (pos + 2, n);
                }
            }
            (pos + 1, n)
        },
        Token::Unknown(u) => {
            let msg = concat2("Unknown literal: ", u.as_str());
            env.add_error(line, pos, msg.as_str());
            (pos + 1, n)
        },
        _ => (pos + 1, n),
    }
}

fn step_exec(tokens: &Vec<TokenInfo>, line: usize, pos: usize, st: FsmState, env: &mut FleEnvironment) -> (r: (usize, FsmState))
    requires
        pos < tokens@.len(),
    ensures
        (r.0 as int, r.1, final(env)@) == qso_step(token_views(tokens@), line, pos as int, st, old(env)@),
{
    let ghost tv = token_views(tokens@);
    let count = tokens.len();
    assert(tv[pos as int] == tokens@[pos as int]@);
    if let Token::Comment { kind, content } = &tokens[pos].token {
        match kind {
            CommentKind::Angle => {
                env.current.qso_msg = content.clone();
            },
            CommentKind::Square => {
                env.current.qsl_msg = content.clone();
            },
            CommentKind::Curly => {
                env.current.qso_rmks = content.clone();
            },
        }
        return (pos + 1, st);
    }
    match st {
        FsmState::Norm => norm_exec(tokens, line, pos, env),
        FsmState::Freq => {
            if let Token::Freq(f) = &tokens[pos].token {
                apply_freq(env, f, line, pos, "Out of the band.");
                (pos + 1, FsmState::Norm)
            } else {
                (pos, FsmState::Norm)
            }
        },
        FsmState::RstSent => {
            match &tokens[pos].token {
                Token::Decimal { digits, value } => {
                    let v: u32 = match parse_unsigned_max(value.as_str(), 4294967295) {
                        Some(x) => x as u32,
                        None => 59,
                    };
                    env.current.rst_sent = RstValue::parse_rst(v, *digits);
                    (pos + 1, FsmState::RstRcvd)
                },
                Token::Snr(x) => {
                    env.current.rst_sent = RstValue::Snr(x.clone());
                    (pos + 1, FsmState::RstRcvd)
                },
                _ => (pos, FsmState::Norm),
            }
        },
        FsmState::RstRcvd => {
            match &tokens[pos].token {
                Token::Decimal { digits, value } => {
                    let v: u32 = match parse_unsigned_max(value.as_str(), 4294967295) {
                        Some(x) => x as u32,
                        None => 59,
                    };
                    env.current.rst_rcvd = RstValue::parse_rst(v, *digits);
                    (pos + 1, FsmState::Norm)
                },
                Token::Snr(x) => {
                    env.current.rst_rcvd = RstValue::Snr(x.clone());
                    (pos + 1, FsmState::Norm)
                },
                _ => (pos, FsmState::Norm),
            }
        },
    }
}

/// The environment at the start of a QSO line: the QSO takes the base date.
pub open spec fn qso_start(env: FleEnvView) -> FleEnvView {
    with_current(env, CurrentQsoView { year: env.year, month: env.month, day: env.day, ..env.current })
}

/// The record of the QSO that the environment holds, its time in UTC.
pub open spec fn record_of(e: FleEnvView) -> FleQsoView {
    let c = e.current;
    let utc = crate::fle::types::utc_of_seconds(
        crate::fle::types::local_seconds(c) - crate::fle::types::tz_seconds(e.timezone),
    );
    FleQsoView {
        mycall: e.mycall,
        operator: e.operator,
        year: utc.year as u16,
        month: utc.month as u8,
        day: utc.day as u8,
        hour: utc.hour as u8,
        min: utc.minute as u8,
        callsign: c.call,
        band: c.band,
        freq: c.freq,
        mode: c.mode,
        rigset: c.rigset,
        rst_sent: rst_text(c.rst_sent),
        rst_rcvd: rst_text(c.rst_rcvd),
        his_num: c.his_num,
        my_num: c.my_num,
        mysota: e.mysota,
        hissota: c.his_sota,
        mywwff: e.mywwff,
        hiswwff: c.his_wwff,
        mypota: e.mypota,
        hispota: c.his_pota,
        qsomsg: c.qso_msg,
        qsormks: c.qso_rmks,
        qslmsg: e.qslmsg,
    }
}

/// A QSO line read against `env`: the environment after it, and its record
/// when a callsign was read.
pub open spec fn qso_line(tokens: Seq<TokenInfoView>, env: FleEnvView, line: usize) -> (FleEnvView, Option<FleQsoView>) {
    let e = qso_run(tokens, line, 0, FsmState::Norm, qso_start(env));
    (e, if e.current.call.len() > 0 { Some(record_of(e)) } else { None })
}

fn make_record(env: &FleEnvironment) -> (r: FleQsoRecord)
    ensures
        r@ == record_of(env@),
{
    let utc = env.to_utc();
    let c = &env.current;
    FleQsoRecord {
        mycall: env.mycall.clone(),
        operator: env.operator.clone(),
        year: utc.year as u16,
        month: utc.month as u8,
        day: utc.day as u8,
        hour: utc.hour as u8,
        min: utc.minute as u8,
        callsign: c.call.clone(),
        band: c.band.clone(),
        freq: c.freq.clone(),
        mode: c.mode.clone(),
        rigset: c.rigset,
        rst_sent: c.rst_sent.to_string(),
        rst_rcvd: c.rst_rcvd.to_string(),
        his_num: c.his_num.clone(),
        my_num: c.my_num.clone(),
        mysota: env.mysota.clone(),
        hissota: c.his_sota.clone(),
        mywwff: env.mywwff.clone(),
        hiswwff: c.his_wwff.clone(),
        mypota: crate::text::copy_strings(&env.mypota),
        hispota: crate::text::copy_strings(&c.his_pota),
        qsomsg: c.qso_msg.clone(),
        qsormks: c.qso_rmks.clone(),
        qslmsg: env.qslmsg.clone(),
    }
}

/// Reads a QSO line (see `qso_line`).
fn process_qso_line(tokens: &Vec<TokenInfo>, env: &mut FleEnvironment, line: usize) -> (r: Option<FleQsoRecord>)
    ensures
        (final(env)@, match r {
            Some(x) => Some(x@),
            None => None::<FleQsoView>,
        }) == qso_line(token_views(tokens@), old(env)@, line),
{
    let ghost tv = token_views(tokens@);
    env.current.year = env.year;
    env.current.month = env.month;
    env.current.day = env.day;
    let ghost start = env@;
    assert(start == qso_start(old(env)@));
    let mut st = FsmState::Norm;
    let mut pos: usize = 0;
    while pos < tokens.len()
        invariant
            pos <= tokens@.len(),
            tv == token_views(tokens@),
            qso_run(tv, line, pos as int, st, env@) == qso_run(tv, line, 0, FsmState::Norm, start),
        decreases tokens@.len() - pos, state_rank(st),
    {
        proof {
            lemma_qso_step_progress(tv, line, pos as int, st, env@);
        }
        let r = step_exec(tokens, line, pos, st, env);
        pos = r.0;
        st = r.1;
    }
    if !env.current.call.as_str().is_empty() {
        Some(make_record(env))
    } else {
        None
    }
}

/// The log type that the references give: "BOTH" for SOTA with WWFF or
/// POTA, "SOTA", "WWFF" (for WWFF or POTA) or "NONE".
pub open spec fn log_type_of(has_sota: bool, has_wwff: bool, has_pota: bool) -> Seq<char> {
    if has_sota && (has_wwff || has_pota) {
        "BOTH"@
    } else if has_sota {
        "SOTA"@
    } else if has_wwff || has_pota {
        "WWFF"@
    } else {
        "NONE"@
    }
}

/// The log type of a compiled text (see `log_type_of`).
pub fn determine_log_type(has_sota: bool, has_wwff: bool, has_pota: bool) -> (r: String)
    ensures
        r@ == log_type_of(has_sota, has_wwff, has_pota),
{
    if has_sota && (has_wwff || has_pota) {
        String::from_str("BOTH")
    } else if has_sota {
        String::from_str("SOTA")
    } else if has_wwff || has_pota {
        String::from_str("WWFF")
    } else {
        String::from_str("NONE")
    }
}

/// What the compiler holds between lines.
pub struct CompileState {
    pub env: FleEnvView,
    pub records: Seq<FleQsoView>,
    pub has_sota: bool,
    pub has_wwff: bool,
    pub has_pota: bool,
    pub has_contest: bool,
}

/// The compiler's state before the first line.
pub open spec fn initial_state() -> CompileState {
    CompileState {
        env: crate::fle::types::initial_env(),
        records: Seq::empty(),
        has_sota: false,
        has_wwff: false,
        has_pota: false,
        has_contest: false,
    }
}

/// One line (number `line`, from 0) read: a blank line is skipped; else the
/// current QSO is cleared, the line is tokenized, and read as a directive
/// or, when it is none, as a QSO line. After a directive the flags record
/// whether a SOTA, WWFF or POTA reference or a contest number is set.
pub open spec fn compile_line(st: CompileState, line: usize, text: Seq<char>) -> CompileState {
    if crate::text::trimmed(text).len() == 0 {
        st
    } else {
        let env0 = FleEnvView { current: crate::fle::types::reset_qso(st.env.current), ..st.env };
        let toks = tokens_of(text);
        if toks.len() == 0 {
            CompileState { env: env0, ..st }
        } else {
            let (res, env1) = directive(toks, env0, line);
            match res {
                DirectiveResult::Handled => CompileState {
                    env: env1,
                    has_sota: st.has_sota || env1.mysota.len() > 0,
                    has_wwff: st.has_wwff || env1.mywwff.len() > 0,
                    has_pota: st.has_pota || env1.mypota.len() > 0,
                    has_contest: st.has_contest || env1.contest_num is Some || env1.contest_lit is Some,
                    ..st
                },
                DirectiveResult::Error => CompileState { env: env1, ..st },
                DirectiveResult::NotDirective => {
                    let (env2, rec) = qso_line(toks, env1, line);
                    CompileState {
                        env: env2,
                        records: match rec {
                            Some(r) => st.records.push(r),
                            None => st.records,
                        },
                        ..st
                    }
                },
            }
        }
    }
}

/// The compiler's state after the lines `lines`.
pub open spec fn compile_lines(lines: Seq<Seq<char>>) -> CompileState
    decreases lines.len(),
{
    if lines.len() == 0 {
        initial_state()
    } else {
        compile_line(compile_lines(lines.drop_last()), (lines.len() - 1) as usize, lines.last())
    }
}

/// The keywords that start a directive line.
pub open spec fn directive_key(key: Seq<char>) -> bool {
    key == "mycall"@ || key == "operator"@ || key == "mysota"@ || key == "mywwff"@ || key == "mypota"@
        || key == "date"@ || key == "day"@ || key == "timezone"@ || key == "nickname"@ || key == "rigset"@
        || key == "number"@ || key == "qslmsg"@ || key == "qslmsg2"@
}

/// A line is a directive exactly when its first token is one of the
/// directive keywords; a line that is none leaves the environment as it
/// was; and a directive is refused only for `day` with an operand other
/// than `+` or `++`, which adds one error at the operand and changes
/// nothing else.
pub proof fn lemma_directive_outcomes(tokens: Seq<TokenInfoView>, env: FleEnvView, line: usize)
    requires
        tokens.len() > 0,
    ensures
        (directive(tokens, env, line).0 == DirectiveResult::NotDirective) <==> !(tokens[0].token matches TokenView::Keyword { key, .. } && directive_key(key)),
        directive(tokens, env, line).0 == DirectiveResult::NotDirective ==> directive(tokens, env, line).1 == env,
        directive(tokens, env, line).0 == DirectiveResult::Error ==> {
            &&& tokens[0].token matches TokenView::Keyword { key, .. } && key == "day"@
            &&& tokens.len() > 1
            &&& tokens[1].token matches TokenView::Literal(l) && l != "+"@ && l != "++"@
            &&& directive(tokens, env, line).1 == with_error(env, line, 1, "Unknown operand."@)
        },
{
}

/// The errors `e1` are the errors `e0` followed by more, each on line `line`.
pub open spec fn errors_extend(e0: Seq<FleErrorView>, e1: Seq<FleErrorView>, line: usize) -> bool {
    &&& e0.len() <= e1.len()
    &&& e1.take(e0.len() as int) == e0
    &&& forall|k: int| e0.len() <= k < e1.len() ==> (#[trigger] e1[k]).line == line
}

proof fn lemma_errors_extend_trans(e0: Seq<FleErrorView>, e1: Seq<FleErrorView>, e2: Seq<FleErrorView>, line: usize)
    requires
        errors_extend(e0, e1, line),
        errors_extend(e1, e2, line),
    ensures
        errors_extend(e0, e2, line),
{
    assert(e2.take(e0.len() as int) =~= e1.take(e0.len() as int)) by {
        assert forall|k: int| 0 <= k < e0.len() implies e2[k] == e1[k] by {
            assert(e2.take(e1.len() as int)[k] == e2[k]);
        }
    }
    assert forall|k: int| e0.len() <= k < e2.len() implies (#[trigger] e2[k]).line == line by {
        if k < e1.len() {
            assert(e2.take(e1.len() as int)[k] == e2[k]);
        }
    }
}

proof fn lemma_with_error_extends(env: FleEnvView, line: usize, column: usize, msg: Seq<char>)
    ensures
        errors_extend(env.errors, with_error(env, line, column, msg).errors, line),
{
    let e1 = with_error(env, line, column, msg).errors;
    assert(e1.take(env.errors.len() as int) =~= env.errors);
}

proof fn lemma_errors_extend_refl(e: Seq<FleErrorView>, line: usize)
    ensures
        errors_extend(e, e, line),
{
    assert(e.take(e.len() as int) =~= e);
}

proof fn lemma_mypota_errors(tokens: Seq<TokenInfoView>, i: int, env: FleEnvView, line: usize)
    ensures
        errors_extend(env.errors, mypota_from(tokens, i, env, line).errors, line),
    decreases tokens.len() - i,
{
    if i < 0 || i >= tokens.len() {
        lemma_errors_extend_refl(env.errors, line);
    } else {
        match tokens[i].token {
            TokenView::PotaRef(r) => {
                lemma_mypota_errors(tokens, i + 1, FleEnvView { mypota: env.mypota.push(r), ..env }, line);
            },
            _ => {
                lemma_with_error_extends(env, line, tokens[i].position, tokens[i].raw + " is invalid POTA ref#."@);
            },
        }
    }
}

/// A directive line adds errors on its own line only.
proof fn lemma_directive_errors(tokens: Seq<TokenInfoView>, env: FleEnvView, line: usize)
    ensures
        errors_extend(env.errors, directive(tokens, env, line).1.errors, line),
{
    lemma_errors_extend_refl(env.errors, line);
    lemma_mypota_errors(tokens, 1, env, line);
    lemma_with_error_chain(env.errors, line);
}

proof fn lemma_with_error_chain(e0: Seq<FleErrorView>, line: usize)
    ensures
        forall|e: FleEnvView, c: usize, m: Seq<char>| #![trigger with_error(e, line, c, m)]
            errors_extend(e0, e.errors, line) ==> errors_extend(e0, with_error(e, line, c, m).errors, line),
{
    assert forall|e: FleEnvView, c: usize, m: Seq<char>| #![trigger with_error(e, line, c, m)]
        errors_extend(e0, e.errors, line) implies errors_extend(e0, with_error(e, line, c, m).errors, line) by {
        lemma_with_error_extends(e, line, c, m);
        lemma_errors_extend_trans(e0, e.errors, with_error(e, line, c, m).errors, line);
    }
}

proof fn lemma_qso_step_errors(tokens: Seq<TokenInfoView>, line: usize, pos: int, st: FsmState, env: FleEnvView)
    requires
        0 <= pos < tokens.len(),
    ensures
        errors_extend(env.errors, qso_step(tokens, line, pos, st, env).2.errors, line),
{
    lemma_errors_extend_refl(env.errors, line);
    lemma_with_error_chain(env.errors, line);
}

proof fn lemma_qso_run_errors(tokens: Seq<TokenInfoView>, line: usize, pos: int, st: FsmState, env: FleEnvView)
    ensures
        errors_extend(env.errors, qso_run(tokens, line, pos, st, env).errors, line),
    decreases tokens.len() - pos, state_rank(st),
{
    if pos < 0 || pos >= tokens.len() {
        lemma_errors_extend_refl(env.errors, line);
    } else {
        let (p2, s2, e2) = qso_step(tokens, line, pos, st, env);
        lemma_qso_step_progress(tokens, line, pos, st, env);
        lemma_qso_step_errors(tokens, line, pos, st, env);
        lemma_qso_run_errors(tokens, line, p2, s2, e2);
        lemma_errors_extend_trans(env.errors, e2.errors, qso_run(tokens, line, p2, s2, e2).errors, line);
    }
}

/// One line read adds errors on its own line only, and at most one record,
/// none for a blank line.
proof fn lemma_compile_line(st: CompileState, line: usize, text: Seq<char>)
    ensures
        errors_extend(st.env.errors, compile_line(st, line, text).env.errors, line),
        compile_line(st, line, text).records.len() <= st.records.len()
            + (if crate::text::trimmed(text).len() == 0 { 0int } else { 1int }),
        compile_line(st, line, text).records.take(st.records.len() as int) == st.records,
{
    let r = compile_line(st, line, text);
    lemma_errors_extend_refl(st.env.errors, line);
    assert(st.records.take(st.records.len() as int) =~= st.records);
    if crate::text::trimmed(text).len() != 0 {
        let env0 = FleEnvView { current: crate::fle::types::reset_qso(st.env.current), ..st.env };
        let toks = tokens_of(text);
        if toks.len() != 0 {
            let (res, env1) = directive(toks, env0, line);
            lemma_directive_errors(toks, env0, line);
            if res == DirectiveResult::NotDirective {
                lemma_qso_run_errors(toks, line, 0, FsmState::Norm, qso_start(env1));
                lemma_errors_extend_trans(st.env.errors, env1.errors, qso_line(toks, env1, line).0.errors, line);
                assert(st.records.push(record_of(qso_line(toks, env1, line).0)).take(st.records.len() as int) =~= st.records);
            }
        }
    }
}

/// The number of lines that are not blank.
pub open spec fn nonblank_lines(lines: Seq<Seq<char>>) -> nat
    decreases lines.len(),
{
    if lines.len() == 0 {
        0
    } else {
        nonblank_lines(lines.drop_last()) + if crate::text::trimmed(lines.last()).len() == 0 { 0nat } else { 1nat }
    }
}

/// Compiling lines gives at most one record per line that is not blank, and
/// its errors in the order of their lines, each on one of the lines.
pub proof fn lemma_compile_lines_in_order(lines: Seq<Seq<char>>)
    requires
        lines.len() <= usize::MAX,
    ensures
        compile_lines(lines).records.len() <= nonblank_lines(lines),
        forall|k: int| 0 <= k < compile_lines(lines).env.errors.len() ==> (#[trigger] compile_lines(lines).env.errors[k]).line < lines.len(),
        forall|i: int, j: int| 0 <= i < j < compile_lines(lines).env.errors.len() ==>
            (#[trigger] compile_lines(lines).env.errors[i]).line <= (#[trigger] compile_lines(lines).env.errors[j]).line,
    decreases lines.len(),
{
    if lines.len() > 0 {
        let prev = lines.drop_last();
        lemma_compile_lines_in_order(prev);
        let st = compile_lines(prev);
        let n = (lines.len() - 1) as usize;
        lemma_compile_line(st, n, lines.last());
        let e0 = st.env.errors;
        let e1 = compile_lines(lines).env.errors;
        assert forall|k: int| 0 <= k < e0.len() implies e1[k] == e0[k] by {
            assert(e1.take(e0.len() as int)[k] == e1[k]);
        }
        assert forall|k: int| 0 <= k < e1.len() implies (#[trigger] e1[k]).line < lines.len() by {
            if k < e0.len() {
                assert(e1[k] == e0[k]);
            }
        }
        assert forall|i: int, j: int| 0 <= i < j < e1.len() implies (#[trigger] e1[i]).line <= (#[trigger] e1[j]).line by {
            if j < e0.len() {
                assert(e1[i] == e0[i] && e1[j] == e0[j]);
            } else if i < e0.len() {
                assert(e1[i] == e0[i]);
            }
        }
    } else {
        assert(initial_state().records.len() == 0);
    }
}

/// Every record of compiled lines has a callsign.
proof fn lemma_compile_lines_callsigns(lines: Seq<Seq<char>>)
    ensures
        forall|k: int| 0 <= k < compile_lines(lines).records.len() ==> (#[trigger] compile_lines(lines).records[k]).callsign.len() > 0,
    decreases lines.len(),
{
    if lines.len() > 0 {
        let prev = lines.drop_last();
        lemma_compile_lines_callsigns(prev);
        let st = compile_lines(prev);
        let n = (lines.len() - 1) as usize;
        lemma_compile_line(st, n, lines.last());
        let r = compile_lines(lines).records;
        assert forall|k: int| 0 <= k < r.len() implies (#[trigger] r[k]).callsign.len() > 0 by {
            if k < st.records.len() {
                assert(r.take(st.records.len() as int)[k] == r[k]);
            }
        }
    }
}

/// A compiled text's status is "OK" exactly when it has no error, and "ERR"
/// otherwise; its log type follows its SOTA, WWFF and POTA flags; and every
/// record has a callsign.
pub proof fn lemma_compile_status(input: Seq<char>)
    ensures
        compile_view(input).status == "OK"@ <==> compile_view(input).errors.len() == 0,
        compile_view(input).status == "ERR"@ <==> compile_view(input).errors.len() > 0,
        compile_view(input).log_type == log_type_of(
            compile_view(input).has_sota,
            compile_view(input).has_wwff,
            compile_view(input).has_pota,
        ),
        forall|k: int| 0 <= k < compile_view(input).records.len() ==> (#[trigger] compile_view(input).records[k]).callsign.len() > 0,
{
    reveal_strlit("OK");
    reveal_strlit("ERR");
    assert("OK"@.len() == 2 && "ERR"@.len() == 3);
    lemma_compile_lines_callsigns(crate::text::lines_of(input));
}

/// Compiling a text gives at most one record per line that is not blank,
/// and its errors in the order of their lines.
pub proof fn lemma_compile_in_order(input: Seq<char>)
    requires
        crate::text::lines_of(input).len() <= usize::MAX,
    ensures
        compile_view(input).records.len() <= nonblank_lines(crate::text::lines_of(input)),
        forall|i: int, j: int| 0 <= i < j < compile_view(input).errors.len() ==>
            (#[trigger] compile_view(input).errors[i]).line <= (#[trigger] compile_view(input).errors[j]).line,
{
    lemma_compile_lines_in_order(crate::text::lines_of(input));
}

/// The result of compiling a text: status "OK" when no error was found,
/// else "ERR"; the log type from the flags; the station data, records and
/// errors that the lines left.
pub open spec fn compile_view(input: Seq<char>) -> FleCompileView {
    let st = compile_lines(crate::text::lines_of(input));
    let e = st.env;
    FleCompileView {
        status: if e.errors.len() == 0 { "OK"@ } else { "ERR"@ },
        log_type: log_type_of(st.has_sota, st.has_wwff, st.has_pota),
        mycall: e.mycall,
        operator: e.operator,
        mysota: e.mysota,
        mywwff: e.mywwff,
        mypota: e.mypota,
        qslmsg: e.qslmsg,
        records: st.records,
        errors: e.errors,
        has_sota: st.has_sota,
        has_wwff: st.has_wwff,
        has_pota: st.has_pota,
        has_contest: st.has_contest,
    }
}

/// Compiles a FLE text into QSO records (see `compile_view`).
#[verifier::rlimit(40)]
pub fn compile_fle(input: &str) -> (r: FleCompileResult)
    ensures
        r@ == compile_view(input@),
{
    let mut env = FleEnvironment::default();
    let mut records: Vec<FleQsoRecord> = Vec::new();
    let mut has_sota = false;
    let mut has_wwff = false;
    let mut has_pota = false;
    let mut has_contest = false;
    let cs = chars_of(input);
    let ls = crate::text::lines(cs.as_slice());
    let ghost lv = crate::text::views(ls@);
    let mut i: usize = 0;
    assert(crate::fle::types::record_views(records@) =~= Seq::<FleQsoView>::empty());
    assert(lv.take(0) =~= Seq::<Seq<char>>::empty());
    while i < ls.len()
        invariant
            i <= ls@.len(),
            lv == crate::text::views(ls@),
            lv == crate::text::lines_of(input@),
            compile_lines(lv.take(i as int)) == (CompileState {
                env: env@,
                records: crate::fle::types::record_views(records@),
                has_sota,
                has_wwff,
                has_pota,
                has_contest,
            }),
        decreases ls@.len() - i,
    {
        assert(lv.take(i + 1).drop_last() =~= lv.take(i as int));
        assert(lv.take(i + 1).last() == ls@[i as int]@);
        let line = &ls[i];
        let t = crate::text::trim(line.as_slice());
        if t.len() == 0 {
            i = i + 1;
            continue;
        }
        env.reset_current_qso();
        let text = string_of(line.as_slice());
        let tokens = tokenize(text.as_str());
        if tokens.len() == 0 {
            i = i + 1;
            continue;
        }
        match process_directive(&tokens, &mut env, i) {
            DirectiveResult::Handled => {
                if !env.mysota.as_str().is_empty() {
                    has_sota = true;
                }
                if !env.mywwff.as_str().is_empty() {
                    has_wwff = true;
                }
                if env.mypota.len() > 0 {
                    has_pota = true;
                }
                if env.contest_num.is_some() || env.contest_lit.is_some() {
                    has_contest = true;
                }
            },
            DirectiveResult::Error => {},
            DirectiveResult::NotDirective => {
                let ghost before = crate::fle::types::record_views(records@);
                match process_qso_line(&tokens, &mut env, i) {
                    Some(rec) => {
                        let ghost rv = rec@;
                        records.push(rec);
                        assert(crate::fle::types::record_views(records@) =~= before.push(rv));
                    },
                    None => {},
                }
            },
        }
        i = i + 1;
    }
    assert(lv.take(ls@.len() as int) =~= lv);
    let status = if env.errors.len() == 0 {
        String::from_str("OK")
    } else {
        String::from_str("ERR")
    };
    let log_type = determine_log_type(has_sota, has_wwff, has_pota);
    FleCompileResult {
        status,
        log_type,
        mycall: env.mycall.clone(),
        operator: env.operator.clone(),
        mysota: env.mysota.clone(),
        mywwff: env.mywwff.clone(),
        mypota: crate::text::copy_strings(&env.mypota),
        qslmsg: env.qslmsg.clone(),
        records,
        errors: env.errors,
        has_sota,
        has_wwff,
        has_pota,
        has_contest,
    }
}

} // verus!
