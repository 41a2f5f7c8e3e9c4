//! The text measures of the award certificate: its kinds, their template
//! names, and the widths of Helvetica Bold.
use vstd::prelude::*;

verus! {

/// The kind of an award certificate.
#[derive(Debug, Clone, Copy, PartialEq, Eq, Structural)]
pub enum AwardType {
    Activator,
    Chaser,
}

impl AwardType {
    /// The file name of the certificate's template image, without extension.
    pub fn template_filename(&self) -> (r: &'static str)
        ensures
            r@ == (match *self {
                AwardType::Activator => "activator_template"@,
                AwardType::Chaser => "chaser_template"@,
            }),
    {
        match self {
            AwardType::Activator => "activator_template",
            AwardType::Chaser => "chaser_template",
        }
    }
}

/// What a certificate says: the callsign, the achievement (and a second
/// line), a description and the issue date (such as "2026 Feb. 1").
#[derive(Debug, Clone)]
pub struct CertificateInfo {
    pub callsign: String,
    pub achievement_text: String,
    pub achievement_line2: Option<String>,
    pub description: Option<String>,
    pub issue_date: Option<String>,
}

/// The width of a character in Helvetica Bold, in thousandths of an em
/// (from the font's metrics; 556 for characters not listed).
pub open spec fn helvetica_bold_width(c: char) -> u32 {
    if '0' <= c <= '9' {
        556
    } else {
        match c {
            'A' | 'B' | 'C' | 'D' | 'H' | 'K' | 'N' | 'R' | 'U' => 722,
            'E' | 'P' | 'S' | 'V' | 'X' | 'Y' => 667,
            'F' | 'L' | 'T' | 'Z' => 611,
            'G' | 'O' | 'Q' | 'w' => 778,
            'I' | 'i' | 'j' | 'l' | ' ' | '/' => 278,
            'M' => 833,
            'W' => 944,
            'J' | 'a' | 'c' | 'e' | 'k' | 's' | 'v' | 'x' | 'y' => 556,
            'b' | 'd' | 'g' | 'h' | 'n' | 'o' | 'p' | 'q' | 'u' => 611,
            'f' | 't' | '(' | ')' | '-' => 333,
            'm' => 889,
            'r' => 389,
            'z' => 500,
            '+' => 584,
            _ => 556,
        }
    }
}

/// The width of a character in Helvetica Bold (see `helvetica_bold_width`).
pub fn char_width_helvetica_bold(c: char) -> (r: u32)
    ensures
        r == helvetica_bold_width(c),
{
    if '0' <= c && c <= '9' {
        return 556;
    }
    match c {
        'A' | 'B' | 'C' | 'D' | 'H' | 'K' | 'N' | 'R' | 'U' => 722,
        'E' | 'P' | 'S' | 'V' | 'X' | 'Y' => 667,
        'F' | 'L' | 'T' | 'Z' => 611,
        'G' | 'O' | 'Q' | 'w' => 778,
        'I' | 'i' | 'j' | 'l' | ' ' | '/' => 278,
        'M' => 833,
        'W' => 944,
        'J' | 'a' | 'c' | 'e' | 'k' | 's' | 'v' | 'x' | 'y' => 556,
        'b' | 'd' | 'g' | 'h' | 'n' | 'o' | 'p' | 'q' | 'u' => 611,
        'f' | 't' | '(' | ')' | '-' => 333,
        'm' => 889,
        'r' => 389,
        'z' => 500,
        '+' => 584,
        _ => 556,
    }
}

/// The width of a text in Helvetica Bold, in thousandths of an em.
pub open spec fn text_width(s: Seq<char>) -> nat
    decreases s.len(),
{
    if s.len() == 0 {
        0
    } else {
        text_width(s.drop_last()) + helvetica_bold_width(s.last()) as nat
    }
}

/// The width of a text in Helvetica Bold (see `text_width`), where it fits
/// a `u32`.
pub fn text_width_units(text: &str) -> (r: u32)
    requires
        text_width(text@) <= u32::MAX,
    ensures
        r == text_width(text@),
{
    let cs = crate::text::chars_of(text);
    let mut total: u32 = 0;
    let mut i: usize = 0;
    assert(text@.take(0) =~= Seq::<char>::empty());
    while i < cs.len()
        invariant
            i <= cs@.len(),
            cs@ == text@,
            total == text_width(text@.take(i as int)),
            text_width(text@) <= u32::MAX,
        decreases cs.len() - i,
    {
        assert(text@.take(i + 1).drop_last() =~= text@.take(i as int));
        proof {
            lemma_text_width_prefix(text@, i + 1);
        }
        total = total + char_width_helvetica_bold(cs[i]);
        i = i + 1;
    }
    assert(text@.take(cs@.len() as int) =~= text@);
    total
}

proof fn lemma_text_width_prefix(s: Seq<char>, k: int)
    requires
        0 <= k <= s.len(),
    ensures
        text_width(s.take(k)) <= text_width(s),
    decreases s.len(),
{
    if k < s.len() {
        assert(s.take(k) =~= s.drop_last().take(k));
        lemma_text_width_prefix(s.drop_last(), k);
    } else {
        assert(s.take(k) =~= s);
    }
}

} // verus!
