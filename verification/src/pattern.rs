//! Regular-expression matching through the `regex` crate.
use vstd::prelude::*;

verus! {

/// What the `regex` crate gives for `Regex::new(pattern)` followed by
/// `captures(hay)`: `None` when the pattern does not compile or does not
/// match, else the text of each capture group (group 0 is the whole match,
/// `None` for a group that did not take part).
pub uninterp spec fn regex_captures(pattern: Seq<char>, hay: Seq<char>) -> Option<Seq<Option<Seq<char>>>>;

/// Whether the pattern matches somewhere in `hay` (`Regex::is_match`).
pub open spec fn regex_matches(pattern: Seq<char>, hay: Seq<char>) -> bool {
    regex_captures(pattern, hay) is Some
}

/// The capture groups of a match, as plain character sequences.
pub open spec fn group_views(g: Seq<Option<String>>) -> Seq<Option<Seq<char>>> {
    g.map_values(|x: Option<String>| match x {
        Some(s) => Some(s@),
        None => None,
    })
}

/// Calls `regex::Regex::new(pattern)` and then `Regex::captures(hay)`,
/// turning each capture group into an owned string. The contract claims only
/// that the result is what `regex_captures` names for these arguments:
/// nothing is stated of how the regex crate matches.
#[verifier::external_body]
pub(crate) fn captures(pattern: &str, hay: &str) -> (r: Option<Vec<Option<String>>>)
    ensures
        match r {
            Some(g) => regex_captures(pattern@, hay@) == Some(group_views(g@)),
            None => regex_captures(pattern@, hay@) is None,
        },
{
    let re = match regex::Regex::new(pattern) {
        Ok(re) => re,
        Err(_) => return None,
    };
    let caps = re.captures(hay)?;
    let mut groups = Vec::new();
    for m in caps.iter() {
        groups.push(m.map(|x| x.as_str().to_string()));
    }
    Some(groups)
}

/// The text of capture group `i`, empty when the group is absent.
pub open spec fn group_text(c: Seq<Option<Seq<char>>>, i: int) -> Seq<char> {
    if 0 <= i < c.len() {
        match c[i] {
            Some(t) => t,
            None => Seq::empty(),
        }
    } else {
        Seq::empty()
    }
}

/// Capture group `i` of a match, empty when the group is absent.
pub fn group_at(g: &Vec<Option<String>>, i: usize) -> (r: String)
    ensures
        r@ == group_text(group_views(g@), i as int),
{
    if i < g.len() {
        match &g[i] {
            Some(t) => t.clone(),
            None => String::new(),
        }
    } else {
        String::new()
    }
}

/// Whether `pattern` matches somewhere in `hay`.
pub fn is_match(pattern: &str, hay: &str) -> (b: bool)
    ensures
        b == regex_matches(pattern@, hay@),
{
    captures(pattern, hay).is_some()
}


/// Whether `regex::Regex::new` accepts a pattern.
pub uninterp spec fn regex_compiles(pattern: Seq<char>) -> bool;

/// Calls `regex::Regex::new(pattern)`; the contract claims only that the
/// result is whether it compiled, named by `regex_compiles`.
#[verifier::external_body]
pub(crate) fn compiles(pattern: &str) -> (r: bool)
    ensures
        r == regex_compiles(pattern@),
{
    regex::Regex::new(pattern).is_ok()
}

} // verus!
