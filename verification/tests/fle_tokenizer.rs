use sotalog::fle::tokenizer::{is_callsign, parse_callsign, tokenize, CommentKind, Token};

#[test]
fn test_tokenize_basic() {
    let tokens = tokenize("40m cw JA1ABC 599 599");
    assert_eq!(tokens.len(), 5);
    assert!(matches!(&tokens[0].token, Token::Band { band, .. } if band == "40m"));
    assert!(matches!(&tokens[1].token, Token::Mode(m) if m == "CW"));
    assert!(matches!(&tokens[2].token, Token::Call(c) if c == "JA1ABC"));
}

#[test]
fn test_tokenize_date() {
    let tokens = tokenize("date 2024-01-15");
    assert_eq!(tokens.len(), 2);
    assert!(matches!(&tokens[0].token, Token::Keyword { key, .. } if key == "date"));
    assert!(matches!(
        &tokens[1].token,
        Token::Date {
            year: 2024,
            month: 1,
            day: 15
        }
    ));
}

#[test]
fn test_tokenize_refs() {
    let tokens = tokenize("mysota JA/TK-001 mypota JA-0001");
    assert_eq!(tokens.len(), 4);
    assert!(matches!(&tokens[1].token, Token::SotaRef(r) if r == "JA/TK-001"));
    assert!(matches!(&tokens[3].token, Token::PotaRef(r) if r == "JA-0001"));
}

#[test]
fn test_tokenize_comment() {
    let tokens = tokenize("JA1ABC <John>");
    assert_eq!(tokens.len(), 2);
    assert!(
        matches!(&tokens[1].token, Token::Comment { kind: CommentKind::Angle, content } if content == "John")
    );
}

#[test]
fn test_tokenize_freq() {
    let tokens = tokenize("7.025");
    assert_eq!(tokens.len(), 1);
    assert!(matches!(&tokens[0].token, Token::Freq(f) if f == "7.025"));
}

#[test]
fn test_tokenize_snr() {
    let tokens = tokenize("FT8 +10 -15");
    assert_eq!(tokens.len(), 3);
    assert!(matches!(&tokens[0].token, Token::Mode(m) if m == "FT8"));
    assert!(matches!(&tokens[1].token, Token::Snr(s) if s == "+10"));
    assert!(matches!(&tokens[2].token, Token::Snr(s) if s == "-15"));
}

#[test]
fn test_parse_callsign() {
    assert_eq!(
        parse_callsign("JA1ABC"),
        Some((
            "JA1ABC".to_string(),
            "JA1ABC".to_string(),
            String::new(),
            String::new()
        ))
    );
    assert_eq!(
        parse_callsign("JA1ABC/1"),
        Some((
            "JA1ABC/1".to_string(),
            "JA1ABC".to_string(),
            "1".to_string(),
            String::new()
        ))
    );
    assert_eq!(
        parse_callsign("JA1ABC/P"),
        Some((
            "JA1ABC/P".to_string(),
            "JA1ABC".to_string(),
            "P".to_string(),
            String::new()
        ))
    );
    assert_eq!(
        parse_callsign("JA1ABC/QRP"),
        Some((
            "JA1ABC/QRP".to_string(),
            "JA1ABC".to_string(),
            String::new(),
            "QRP".to_string()
        ))
    );
}

#[test]
fn test_is_callsign() {
    assert!(is_callsign("JA1ABC"));
    assert!(is_callsign("W1AW"));
    assert!(is_callsign("VK2ABC"));
    assert!(!is_callsign("40M"));
    assert!(!is_callsign("CW"));
}

#[test]
fn test_tokenize_japanese_comments() {
    let tokens = tokenize("4 ja4qru 6 7 <曽田さん>{島根市}");
    assert_eq!(tokens.len(), 6);
    assert!(matches!(&tokens[0].token, Token::Decimal { value, .. } if value == "4"));
    assert!(matches!(&tokens[1].token, Token::Call(c) if c == "JA4QRU"));
    assert!(matches!(&tokens[2].token, Token::Decimal { value, .. } if value == "6"));
    assert!(matches!(&tokens[3].token, Token::Decimal { value, .. } if value == "7"));
    assert!(
        matches!(&tokens[4].token, Token::Comment { kind: CommentKind::Angle, content } if content == "曽田さん")
    );
    assert_eq!(tokens[4].raw, "<曽田さん>");
    assert!(
        matches!(&tokens[5].token, Token::Comment { kind: CommentKind::Curly, content } if content == "島根市")
    );
    assert_eq!(tokens[5].raw, "{島根市}");
}

#[test]
fn tokenize_stops_at_hash_and_keeps_positions() {
    let tokens = tokenize("  0900 JA1XYZ # note");
    assert_eq!(tokens.len(), 2);
    assert_eq!(tokens[0].position, 2);
    assert_eq!(tokens[1].position, 7);
    assert!(matches!(&tokens[0].token, Token::Decimal { digits: 4, value } if value == "0900"));
}

#[test]
fn tokenize_unclosed_comment_runs_to_end() {
    let tokens = tokenize("[QSL via bureau");
    assert_eq!(tokens.len(), 1);
    assert!(
        matches!(&tokens[0].token, Token::Comment { kind: CommentKind::Square, content } if content == "QSL via bureau")
    );
    assert_eq!(tokens[0].raw, "[QSL via bureau");
}

#[test]
fn tokenize_contest_and_literals() {
    let tokens = tokenize(".12 ,34 + JA/ZZ");
    assert!(matches!(&tokens[0].token, Token::ContestSent(s) if s == "12"));
    assert!(matches!(&tokens[1].token, Token::ContestRcvd(s) if s == "34"));
    assert!(matches!(&tokens[2].token, Token::Literal(s) if s == "+"));
    assert!(matches!(&tokens[3].token, Token::Unknown(s) if s == "JA/ZZ"));
}

#[test]
fn tokenize_keywords_and_dates() {
    let tokens = tokenize("qslmsg day 01/15 consecutive");
    assert!(matches!(&tokens[0].token, Token::Keyword { key, arg_count: -1 } if key == "qslmsg"));
    assert!(matches!(&tokens[1].token, Token::Keyword { key, arg_count: 1 } if key == "day"));
    assert!(matches!(&tokens[2].token, Token::Date2 { month: 1, day: 15 }));
    assert!(matches!(&tokens[3].token, Token::Keyword { key, arg_count: 0 } if key == "consecutive"));
}

#[test]
fn parse_callsign_prefix_forms() {
    assert_eq!(
        parse_callsign("ja/jl1nie/p"),
        Some((
            "JA/JL1NIE/P".to_string(),
            "JL1NIE".to_string(),
            "JA".to_string(),
            String::new()
        ))
    );
    assert_eq!(
        parse_callsign("JL1NIE/7/QRP"),
        Some((
            "JL1NIE/7/QRP".to_string(),
            "JL1NIE".to_string(),
            "7".to_string(),
            "QRP".to_string()
        ))
    );
    assert_eq!(parse_callsign("12345"), None);
    assert_eq!(parse_callsign("A/B/C/D"), None);
}

#[test]
fn tokens_in_order_with_their_text() {
    let line = "0900 ja1abc 599 559 <nice QSO> [qsl] #rest";
    let chars: Vec<char> = line.chars().collect();
    let tokens = tokenize(line);
    assert!(tokens.len() >= 5);
    let mut end = 0;
    for t in &tokens {
        assert!(t.position >= end);
        let n = t.raw.chars().count();
        assert!(n > 0);
        let slice: String = chars[t.position..t.position + n].iter().collect();
        assert_eq!(slice, t.raw);
        end = t.position + n;
    }
}
