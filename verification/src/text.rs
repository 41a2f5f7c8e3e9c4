//! Character-sequence helpers shared by the parsers and formatters.
use vstd::prelude::*;

verus! {

/// What `str::to_uppercase` returns for a string (the Unicode upper-case mapping).
pub uninterp spec fn str_upper(s: Seq<char>) -> Seq<char>;

/// What `str::to_lowercase` returns for a string (the Unicode lower-case mapping).
pub uninterp spec fn str_lower(s: Seq<char>) -> Seq<char>;

/// Calls `str::to_uppercase`; the result is named by `str_upper`.
#[verifier::external_body]
pub(crate) fn to_upper(s: &str) -> (r: String)
    ensures
        r@ == str_upper(s@),
{
    s.to_uppercase()
}

/// Calls `str::to_lowercase`; the result is named by `str_lower`.
#[verifier::external_body]
pub(crate) fn to_lower(s: &str) -> (r: String)
    ensures
        r@ == str_lower(s@),
{
    s.to_lowercase()
}

/// Calls `String::from_iter` on the characters; the string holds exactly them.
#[verifier::external_body]
pub(crate) fn string_of(v: &[char]) -> (r: String)
    ensures
        r@ == v@,
{
    String::from_iter(v.iter())
}

/// The characters of `s`, in order.
pub fn chars_of(s: &str) -> (r: Vec<char>)
    ensures
        r@ == s@,
{
    let mut r: Vec<char> = Vec::new();
    for c in it: s.chars()
        invariant
            r@ == it.seq().take(it.index() as int),
            it.seq() == s@,
    {
        r.push(c);
    }
    r
}

/// A fresh copy of a string.
pub fn copy_str(s: &str) -> (r: String)
    ensures
        r@ == s@,
{
    s.to_owned()
}

/// The empty string.
pub fn empty() -> (r: String)
    ensures
        r@ == Seq::<char>::empty(),
{
    String::new()
}

/// Concatenation of two strings.
pub fn concat2(a: &str, b: &str) -> (r: String)
    ensures
        r@ == a@ + b@,
{
    let mut r = a.to_owned();
    r.append(b);
    r
}

/// Equality of the character sequences of two strings.
pub fn str_eq(a: &str, b: &str) -> (r: bool)
    ensures
        r == (a@ == b@),
{
    let x = chars_of(a);
    let y = chars_of(b);
    if x.len() != y.len() {
        return false;
    }
    let mut i: usize = 0;
    while i < x.len()
        invariant
            x@ == a@,
            y@ == b@,
            x.len() == y.len(),
            i <= x.len(),
            forall|k: int| 0 <= k < i ==> x@[k] == y@[k],
        decreases x.len() - i,
    {
        if x[i] != y[i] {
            return false;
        }
        i = i + 1;
    }
    assert(x@ =~= y@);
    true
}

/// `char::is_whitespace`: the Unicode `White_Space` property.
pub open spec fn is_ws(c: char) -> bool {
    ||| ('\u{9}' <= c && c <= '\u{d}')
    ||| c == ' '
    ||| c == '\u{85}'
    ||| c == '\u{a0}'
    ||| c == '\u{1680}'
    ||| ('\u{2000}' <= c && c <= '\u{200a}')
    ||| c == '\u{2028}'
    ||| c == '\u{2029}'
    ||| c == '\u{202f}'
    ||| c == '\u{205f}'
    ||| c == '\u{3000}'
}

/// Whether `c` is white space (see `is_ws`).
pub fn is_whitespace(c: char) -> (b: bool)
    ensures
        b == is_ws(c),
{
    ('\u{9}' <= c && c <= '\u{d}') || c == ' ' || c == '\u{85}' || c == '\u{a0}' || c
        == '\u{1680}' || ('\u{2000}' <= c && c <= '\u{200a}') || c == '\u{2028}' || c
        == '\u{2029}' || c == '\u{202f}' || c == '\u{205f}' || c == '\u{3000}'
}

/// `s` without its leading white space.
pub open spec fn trim_left(s: Seq<char>) -> Seq<char>
    decreases s.len(),
{
    if s.len() > 0 && is_ws(s[0]) {
        trim_left(s.drop_first())
    } else {
        s
    }
}

/// `s` without its trailing white space.
pub open spec fn trim_right(s: Seq<char>) -> Seq<char>
    decreases s.len(),
{
    if s.len() > 0 && is_ws(s.last()) {
        trim_right(s.drop_last())
    } else {
        s
    }
}

/// `str::trim`: `s` without leading and trailing white space.
pub open spec fn trimmed(s: Seq<char>) -> Seq<char> {
    trim_right(trim_left(s))
}

/// `str::trim` on characters.
pub fn trim(s: &[char]) -> (r: Vec<char>)
    ensures
        r@ == trimmed(s@),
{
    let n = s.len();
    let mut i: usize = 0;
    assert(s@.subrange(0, n as int) =~= s@);
    while i < n && is_whitespace(s[i])
        invariant
            i <= n == s@.len(),
            trim_left(s@) == trim_left(s@.subrange(i as int, n as int)),
        decreases n - i,
    {
        assert(s@.subrange(i as int, n as int).drop_first() =~= s@.subrange(i + 1, n as int));
        i = i + 1;
    }
    let ghost t = s@.subrange(i as int, n as int);
    assert(trim_left(s@) == t);
    let mut j: usize = n;
    while j > i && is_whitespace(s[j - 1])
        invariant
            i <= j <= n == s@.len(),
            t == s@.subrange(i as int, n as int),
            trim_right(t) == trim_right(s@.subrange(i as int, j as int)),
        decreases j,
    {
        assert(s@.subrange(i as int, j as int).drop_last() =~= s@.subrange(i as int, j - 1));
        j = j - 1;
    }
    let mut r: Vec<char> = Vec::new();
    let mut k = i;
    while k < j
        invariant
            i <= k <= j <= n == s@.len(),
            r@ == s@.subrange(i as int, k as int),
        decreases j - k,
    {
        r.push(s[k]);
        k = k + 1;
        assert(r@ =~= s@.subrange(i as int, k as int));
    }
    r
}

/// `str::split` by a character predicate: the pieces between separators,
/// always at least one.
pub open spec fn split_when(s: Seq<char>, p: spec_fn(char) -> bool) -> Seq<Seq<char>>
    decreases s.len(),
{
    if s.len() == 0 {
        seq![Seq::<char>::empty()]
    } else {
        let rest = split_when(s.drop_first(), p);
        if p(s[0]) {
            seq![Seq::<char>::empty()] + rest
        } else {
            rest.update(0, seq![s[0]] + rest[0])
        }
    }
}

/// `str::split(sep)` for a single separator character.
pub open spec fn split_on(s: Seq<char>, sep: char) -> Seq<Seq<char>> {
    split_when(s, sep_pred(SepKind::Char(sep)))
}

/// Splitting gives at least one part.
pub proof fn lemma_split_when_nonempty(s: Seq<char>, p: spec_fn(char) -> bool)
    ensures
        split_when(s, p).len() >= 1,
    decreases s.len(),
{
    if s.len() > 0 {
        lemma_split_when_nonempty(s.drop_first(), p);
    }
}

/// The separator tests that the parsers use.
pub enum SepKind {
    /// One given character.
    Char(char),
    /// A comma or any white space.
    CommaOrSpace,
    /// ASCII white space: space, tab, line feed, form feed, carriage return.
    AsciiSpace,
    /// Any white space.
    Space,
}

/// The predicate that a `SepKind` stands for.
pub open spec fn sep_pred(k: SepKind) -> spec_fn(char) -> bool {
    match k {
        SepKind::Char(c) => |x: char| x == c,
        SepKind::CommaOrSpace => |x: char| x == ',' || is_ws(x),
        SepKind::AsciiSpace => |x: char| x == ' ' || x == '\t' || x == '\n' || x == '\x0C' || x == '\r',
        SepKind::Space => |x: char| is_ws(x),
    }
}

fn sep_test(k: &SepKind, c: char) -> (b: bool)
    ensures
        b == (sep_pred(*k))(c),
{
    match k {
        SepKind::Char(x) => c == *x,
        SepKind::CommaOrSpace => c == ',' || is_whitespace(c),
        SepKind::AsciiSpace => c == ' ' || c == '\t' || c == '\n' || c == '\x0C' || c == '\r',
        SepKind::Space => is_whitespace(c),
    }
}

/// The character sequences of a sequence of character vectors.
pub open spec fn views(v: Seq<Vec<char>>) -> Seq<Seq<char>> {
    v.map_values(|x: Vec<char>| x@)
}

/// `str::split` with the separator test `k`.
pub fn split(s: &[char], k: SepKind) -> (r: Vec<Vec<char>>)
    ensures
        views(r@) == split_when(s@, sep_pred(k)),
{
    let ghost p = sep_pred(k);
    let n = s.len();
    let mut done: Vec<Vec<char>> = Vec::new();
    let mut cur: Vec<char> = Vec::new();
    let mut i: usize = 0;
    proof {
        lemma_split_when_nonempty(s@, p);
        let w = split_when(s@, p);
        assert(w.update(0, Seq::<char>::empty() + w[0]) =~= w);
        assert(s@.subrange(0, n as int) =~= s@);
    }
    while i < n
        invariant
            i <= n == s@.len(),
            p == sep_pred(k),
            split_when(s@, p) =~= views(done@) + ({
                let w = split_when(s@.subrange(i as int, n as int), p);
                w.update(0, cur@ + w[0])
            }),
        decreases n - i,
    {
        let ghost sub = s@.subrange(i as int, n as int);
        let ghost sub2 = s@.subrange(i + 1, n as int);
        proof {
            assert(sub.drop_first() =~= sub2);
            lemma_split_when_nonempty(sub2, p);
        }
        let c = s[i];
        if sep_test(&k, c) {
            let ghost w2 = split_when(sub2, p);
            let ghost old_done = views(done@);
            let ghost old_cur = cur@;
            done.push(cur);
            cur = Vec::new();
            proof {
                assert(views(done@) =~= old_done.push(old_cur));
                assert(w2.update(0, cur@ + w2[0]) =~= w2);
                let w = split_when(sub, p);
                assert(w == seq![Seq::<char>::empty()] + w2);
                assert(w.update(0, old_cur + w[0]) =~= seq![old_cur] + w2);
            }
        } else {
            let ghost old_cur = cur@;
            cur.push(c);
            proof {
                let w2 = split_when(sub2, p);
                let w = split_when(sub, p);
                assert(w == w2.update(0, seq![c] + w2[0]));
                assert(old_cur + (seq![c] + w2[0]) =~= cur@ + w2[0]);
                assert(w.update(0, old_cur + w[0]) =~= w2.update(0, cur@ + w2[0]));
            }
        }
        i = i + 1;
    }
    proof {
        assert(s@.subrange(n as int, n as int) =~= Seq::<char>::empty());
        let w = split_when(Seq::<char>::empty(), p);
        assert(w.update(0, cur@ + w[0]) =~= seq![cur@]);
    }
    let ghost old_done = views(done@);
    done.push(cur);
    assert(views(done@) =~= old_done.push(cur@));
    done
}

/// `pat` occurs in `s` at index `i`.
pub open spec fn occurs_at(s: Seq<char>, pat: Seq<char>, i: int) -> bool {
    0 <= i && i + pat.len() <= s.len() && s.subrange(i, i + pat.len()) == pat
}

/// The first index at or after `i` where `pat` occurs in `s`.
pub open spec fn find_from(s: Seq<char>, pat: Seq<char>, i: int) -> Option<int>
    decreases s.len() + 1 - i,
{
    if i < 0 || i + pat.len() > s.len() {
        None
    } else if occurs_at(s, pat, i) {
        Some(i)
    } else {
        find_from(s, pat, i + 1)
    }
}

/// A position found is one where the pattern occurs, at or after the start.
pub proof fn lemma_find_from_found(s: Seq<char>, pat: Seq<char>, i: int)
    ensures
        find_from(s, pat, i) matches Some(k) ==> i <= k && occurs_at(s, pat, k)
            && k + pat.len() <= s.len(),
    decreases s.len() + 1 - i,
{
    if !(i < 0 || i + pat.len() > s.len()) && !occurs_at(s, pat, i) {
        lemma_find_from_found(s, pat, i + 1);
    }
}

/// `str::contains` for a pattern string.
pub open spec fn contains_seq(s: Seq<char>, pat: Seq<char>) -> bool {
    find_from(s, pat, 0) is Some
}

fn occurs(s: &[char], pat: &[char], i: usize) -> (b: bool)
    ensures
        b == occurs_at(s@, pat@, i as int),
{
    if i > s.len() || pat.len() > s.len() - i {
        return false;
    }
    let mut k: usize = 0;
    while k < pat.len()
        invariant
            i + pat@.len() <= s@.len(),
            pat.len() == pat@.len(),
            s.len() == s@.len(),
            k <= pat@.len(),
            forall|j: int| 0 <= j < k ==> s@[i + j] == pat@[j],
        decreases pat.len() - k,
    {
        if s[i + k] != pat[k] {
            assert(s@.subrange(i as int, i + pat@.len())[k as int] != pat@[k as int]);
            return false;
        }
        k = k + 1;
    }
    assert(s@.subrange(i as int, i + pat@.len()) =~= pat@);
    true
}

/// The first index where `pat` occurs in `s` (`str::find`).
pub fn find(s: &[char], pat: &[char]) -> (r: Option<usize>)
    ensures
        r matches Some(i) ==> find_from(s@, pat@, 0) == Some(i as int),
        r matches Some(i) ==> i + pat@.len() <= s@.len() && occurs_at(s@, pat@, i as int),
        r is None ==> find_from(s@, pat@, 0) is None,
{
    proof {
        lemma_find_from_found(s@, pat@, 0);
    }
    let mut i: usize = 0;
    loop
        invariant
            i <= s@.len(),
            find_from(s@, pat@, 0) == find_from(s@, pat@, i as int),
        decreases s.len() - i,
    {
        if pat.len() > s.len() - i {
            return None;
        }
        if occurs(s, pat, i) {
            return Some(i);
        }
        if i == s.len() {
            assert(find_from(s@, pat@, i + 1) is None);
            return None;
        }
        i = i + 1;
    }
}

/// Whether `pat` occurs in `s` (`str::contains`).
pub fn contains(s: &[char], pat: &[char]) -> (b: bool)
    ensures
        b == contains_seq(s@, pat@),
{
    find(s, pat).is_some()
}

/// `str::starts_with` for a pattern string.
pub fn starts_with(s: &[char], pat: &[char]) -> (b: bool)
    ensures
        b == occurs_at(s@, pat@, 0),
{
    occurs(s, pat, 0)
}

/// `str::replace(from, to)` for a non-empty `from`: the non-overlapping
/// occurrences, found left to right, are replaced.
pub open spec fn replace_all(s: Seq<char>, from: Seq<char>, to: Seq<char>) -> Seq<char>
    decreases s.len(),
{
    if from.len() == 0 || s.len() < from.len() {
        s
    } else if s.take(from.len() as int) == from {
        to + replace_all(s.skip(from.len() as int), from, to)
    } else {
        seq![s[0]] + replace_all(s.drop_first(), from, to)
    }
}

/// `str::replace` for a non-empty pattern.
pub fn replace(s: &[char], from: &[char], to: &[char]) -> (r: Vec<char>)
    requires
        from@.len() > 0,
    ensures
        r@ == replace_all(s@, from@, to@),
{
    let n = s.len();
    let mut out: Vec<char> = Vec::new();
    let mut i: usize = 0;
    assert(s@.skip(0) =~= s@);
    while i < n
        invariant
            i <= n == s@.len(),
            from@.len() > 0,
            replace_all(s@, from@, to@) == out@ + replace_all(s@.skip(i as int), from@, to@),
        decreases n - i,
    {
        let ghost rest = s@.skip(i as int);
        if from.len() <= n - i && occurs(s, from, i) {
            assert(rest.take(from@.len() as int) =~= s@.subrange(i as int, i + from@.len()));
            assert(rest.skip(from@.len() as int) =~= s@.skip(i + from@.len()));
            let ghost o = out@;
            let mut k: usize = 0;
            while k < to.len()
                invariant
                    k <= to@.len(),
                    out@ == o + to@.take(k as int),
                decreases to.len() - k,
            {
                out.push(to[k]);
                k = k + 1;
                assert(out@ =~= o + to@.take(k as int));
            }
            assert(to@.take(to@.len() as int) =~= to@);
            i = i + from.len();
        } else {
            proof {
                if rest.len() >= from@.len() {
                    assert(rest.take(from@.len() as int) =~= s@.subrange(i as int, i + from@.len()));
                }
                assert(rest.drop_first() =~= s@.skip(i + 1));
            }
            out.push(s[i]);
            i = i + 1;
        }
    }
    assert(s@.skip(n as int).len() == 0);
    assert(out@ =~= out@ + replace_all(s@.skip(n as int), from@, to@));
    out
}

/// The character sequences of a sequence of strings.
pub open spec fn strs(v: Seq<String>) -> Seq<Seq<char>> {
    v.map_values(|x: String| x@)
}

/// `[T]::join(sep)` on strings.
pub open spec fn join(parts: Seq<Seq<char>>, sep: Seq<char>) -> Seq<char>
    decreases parts.len(),
{
    if parts.len() == 0 {
        Seq::empty()
    } else if parts.len() == 1 {
        parts[0]
    } else {
        join(parts.drop_last(), sep) + sep + parts.last()
    }
}

/// Joins strings with a separator.
pub fn join_strings(parts: &Vec<String>, sep: &str) -> (r: String)
    ensures
        r@ == join(strs(parts@), sep@),
{
    let mut r = String::new();
    let ghost ps = strs(parts@);
    let mut i: usize = 0;
    while i < parts.len()
        invariant
            i <= parts@.len(),
            ps == strs(parts@),
            r@ == join(ps.take(i as int), sep@),
        decreases parts.len() - i,
    {
        assert(ps.take(i + 1).drop_last() =~= ps.take(i as int));
        if i > 0 {
            r.append(sep);
        } else {
            assert(r@ =~= Seq::<char>::empty());
        }
        r.append(parts[i].as_str());
        proof {
            if i == 0 {
                assert(r@ =~= ps.take(1)[0]);
            }
        }
        i = i + 1;
    }
    assert(ps.take(parts@.len() as int) =~= ps);
    r
}

/// `s` without one trailing carriage return.
pub open spec fn strip_cr(s: Seq<char>) -> Seq<char> {
    if s.len() > 0 && s.last() == '\r' {
        s.drop_last()
    } else {
        s
    }
}

/// `str::lines`: the pieces between line feeds, each without one trailing
/// carriage return when a line feed ended it; an empty final piece is dropped.
pub open spec fn lines_of(s: Seq<char>) -> Seq<Seq<char>> {
    let p = split_on(s, '\n');
    let ended = p.drop_last().map_values(|x: Seq<char>| strip_cr(x));
    if p.last().len() == 0 {
        ended
    } else {
        ended.push(p.last())
    }
}

/// `str::lines` on characters.
pub fn lines(s: &[char]) -> (r: Vec<Vec<char>>)
    ensures
        views(r@) == lines_of(s@),
{
    let parts = split(s, SepKind::Char('\n'));
    proof {
        lemma_split_when_nonempty(s@, sep_pred(SepKind::Char('\n')));
    }
    let ghost p = split_on(s@, '\n');
    assert(views(parts@) == p);
    let m = parts.len();
    let mut r: Vec<Vec<char>> = Vec::new();
    let mut i: usize = 0;
    while i + 1 < m
        invariant
            m == parts@.len() >= 1,
            views(parts@) == p,
            i + 1 <= m,
            views(r@) == p.drop_last().take(i as int).map_values(|x: Seq<char>| strip_cr(x)),
        decreases m - i,
    {
        let piece = &parts[i];
        let mut v: Vec<char> = piece.clone();
        assert(v@ == p[i as int]);
        if v.len() > 0 && v[v.len() - 1] == '\r' {
            v.pop();
        }
        let ghost old_r = views(r@);
        r.push(v);
        assert(views(r@) =~= old_r.push(strip_cr(p[i as int])));
        i = i + 1;
        assert(p.drop_last().take(i as int).map_values(|x: Seq<char>| strip_cr(x)) =~= old_r.push(
            strip_cr(p[i - 1]),
        ));
    }
    assert(p.drop_last().take(i as int) =~= p.drop_last());
    let last = &parts[m - 1];
    if last.len() > 0 {
        let ghost old_r = views(r@);
        r.push(last.clone());
        assert(views(r@) =~= old_r.push(p.last()));
    }
    r
}

/// A copy of a character vector.
pub fn copy_chars(v: &Vec<char>) -> (r: Vec<char>)
    ensures
        r@ == v@,
{
    let mut r: Vec<char> = Vec::new();
    let mut i: usize = 0;
    while i < v.len()
        invariant
            i <= v@.len(),
            r@ == v@.take(i as int),
        decreases v.len() - i,
    {
        r.push(v[i]);
        i = i + 1;
        assert(r@ =~= v@.take(i as int));
    }
    assert(v@.take(v@.len() as int) =~= v@);
    r
}

/// Appends characters to a character vector.
pub fn push_all(out: &mut Vec<char>, s: &[char])
    ensures
        final(out)@ == old(out)@ + s@,
{
    let ghost o = out@;
    let mut i: usize = 0;
    while i < s.len()
        invariant
            i <= s@.len(),
            out@ == o + s@.take(i as int),
        decreases s.len() - i,
    {
        out.push(s[i]);
        i = i + 1;
        assert(out@ =~= o + s@.take(i as int));
    }
    assert(s@.take(s@.len() as int) =~= s@);
}

/// The characters `s[from..to]`.
pub fn sub_chars(s: &[char], from: usize, to: usize) -> (r: Vec<char>)
    requires
        from <= to <= s@.len(),
    ensures
        r@ == s@.subrange(from as int, to as int),
{
    let mut r: Vec<char> = Vec::new();
    let mut k = from;
    while k < to
        invariant
            from <= k <= to <= s@.len(),
            r@ == s@.subrange(from as int, k as int),
        decreases to - k,
    {
        r.push(s[k]);
        k = k + 1;
        assert(r@ =~= s@.subrange(from as int, k as int));
    }
    r
}

/// A copy of a vector of strings.
pub fn copy_strings(v: &Vec<String>) -> (r: Vec<String>)
    ensures
        strs(r@) == strs(v@),
{
    let mut r: Vec<String> = Vec::new();
    let mut i: usize = 0;
    while i < v.len()
        invariant
            i <= v@.len(),
            strs(r@) == strs(v@).take(i as int),
        decreases v.len() - i,
    {
        let ghost before = strs(r@);
        r.push(v[i].clone());
        assert(strs(r@) =~= before.push(v@[i as int]@));
        i = i + 1;
        assert(strs(v@).take(i as int) =~= strs(v@).take(i - 1).push(v@[i - 1]@));
    }
    assert(strs(v@).take(v@.len() as int) =~= strs(v@));
    r
}

/// The bytes `b[from..to]`.
pub fn sub_bytes(b: &[u8], from: usize, to: usize) -> (r: Vec<u8>)
    requires
        from <= to <= b@.len(),
    ensures
        r@ == b@.subrange(from as int, to as int),
{
    let mut r: Vec<u8> = Vec::new();
    let mut k = from;
    while k < to
        invariant
            from <= k <= to <= b@.len(),
            r@ == b@.subrange(from as int, k as int),
        decreases to - k,
    {
        r.push(b[k]);
        k = k + 1;
        assert(r@ =~= b@.subrange(from as int, k as int));
    }
    r
}

/// The text that UTF-8 bytes encode, when they are valid UTF-8.
pub open spec fn utf8_text(b: Seq<u8>) -> Option<Seq<char>> {
    if vstd::utf8::valid_utf8(b) {
        Some(vstd::utf8::decode_utf8(b))
    } else {
        None
    }
}

/// Calls `std::str::from_utf8`, which succeeds exactly on valid UTF-8 and
/// then gives the characters that the bytes encode.
#[verifier::external_body]
pub(crate) fn from_utf8(b: &[u8]) -> (r: Option<String>)
    ensures
        match r {
            Some(s) => utf8_text(b@) == Some(s@),
            None => utf8_text(b@) is None,
        },
{
    match std::str::from_utf8(b) {
        Ok(s) => Some(s.to_string()),
        Err(_) => None,
    }
}

/// The UTF-8 bytes of a string.
pub fn bytes_of(s: &str) -> (r: Vec<u8>)
    ensures
        r@ == vstd::utf8::encode_utf8(s@),
{
    let b = s.as_bytes();
    sub_bytes(b, 0, b.len())
}

/// A character with ASCII case folded away: the code of an ASCII lower-case
/// letter is taken as that of its upper-case letter.
pub open spec fn ascii_fold(c: char) -> int {
    if 'a' <= c <= 'z' {
        c as int - 32
    } else {
        c as int
    }
}

/// `pat` occurs in `s` at index `i`, ignoring ASCII case.
pub open spec fn occurs_at_ci(s: Seq<char>, pat: Seq<char>, i: int) -> bool {
    &&& 0 <= i
    &&& i + pat.len() <= s.len()
    &&& forall|k: int| 0 <= k < pat.len() ==> ascii_fold(#[trigger] s[i + k]) == ascii_fold(pat[k])
}

/// The first index at or after `i` where `pat` occurs in `s`, ignoring ASCII
/// case.
pub open spec fn find_from_ci(s: Seq<char>, pat: Seq<char>, i: int) -> Option<int>
    decreases s.len() + 1 - i,
{
    if i < 0 || i + pat.len() > s.len() {
        None
    } else if occurs_at_ci(s, pat, i) {
        Some(i)
    } else {
        find_from_ci(s, pat, i + 1)
    }
}

/// A position found is one where the pattern occurs, at or after the start.
pub proof fn lemma_find_from_ci_found(s: Seq<char>, pat: Seq<char>, i: int)
    ensures
        find_from_ci(s, pat, i) matches Some(k) ==> i <= k && occurs_at_ci(s, pat, k)
            && k + pat.len() <= s.len(),
    decreases s.len() + 1 - i,
{
    if !(i < 0 || i + pat.len() > s.len()) && !occurs_at_ci(s, pat, i) {
        lemma_find_from_ci_found(s, pat, i + 1);
    }
}

fn fold_exec(c: char) -> (r: u32)
    ensures
        r as int == ascii_fold(c),
{
    if 'a' <= c && c <= 'z' {
        (c as u32) - 32
    } else {
        c as u32
    }
}

fn occurs_ci(s: &[char], pat: &[char], i: usize) -> (b: bool)
    ensures
        b == occurs_at_ci(s@, pat@, i as int),
{
    if i > s.len() || pat.len() > s.len() - i {
        return false;
    }
    let mut k: usize = 0;
    while k < pat.len()
        invariant
            i + pat@.len() <= s@.len(),
            pat.len() == pat@.len(),
            s.len() == s@.len(),
            k <= pat@.len(),
            forall|j: int| 0 <= j < k ==> ascii_fold(#[trigger] s@[i + j]) == ascii_fold(pat@[j]),
        decreases pat.len() - k,
    {
        if fold_exec(s[i + k]) != fold_exec(pat[k]) {
            return false;
        }
        k = k + 1;
    }
    true
}

/// The first index where `pat` occurs in `s`, ignoring ASCII case.
fn find_ci(s: &[char], pat: &[char]) -> (r: Option<usize>)
    ensures
        r matches Some(i) ==> find_from_ci(s@, pat@, 0) == Some(i as int),
        r matches Some(i) ==> i + pat@.len() <= s@.len(),
        r is None ==> find_from_ci(s@, pat@, 0) is None,
{
    proof {
        lemma_find_from_ci_found(s@, pat@, 0);
    }
    let mut i: usize = 0;
    loop
        invariant
            i <= s@.len(),
            find_from_ci(s@, pat@, 0) == find_from_ci(s@, pat@, i as int),
        decreases s.len() - i,
    {
        if pat.len() > s.len() - i {
            return None;
        }
        if occurs_ci(s, pat, i) {
            return Some(i);
        }
        if i == s.len() {
            assert(find_from_ci(s@, pat@, i + 1) is None);
            return None;
        }
        i = i + 1;
    }
}

/// `str::split_inclusive` for a non-empty pattern matched ignoring ASCII
/// case: the pieces of `s` that each end with an occurrence of `pat`, and
/// the rest when it is not empty.
pub open spec fn split_incl_ci(s: Seq<char>, pat: Seq<char>) -> Seq<Seq<char>>
    decreases s.len(),
{
    if pat.len() == 0 {
        seq![s]
    } else {
        match find_from_ci(s, pat, 0) {
            Some(i) => {
                proof {
                    lemma_find_from_ci_found(s, pat, 0);
                }
                if i + pat.len() <= s.len() {
                    seq![s.take(i + pat.len())] + split_incl_ci(s.skip(i + pat.len()), pat)
                } else {
                    seq![s]
                }
            },
            None => if s.len() == 0 {
                Seq::empty()
            } else {
                seq![s]
            },
        }
    }
}

/// Splits after each occurrence of a non-empty pattern, ignoring ASCII case
/// (see `split_incl_ci`).
pub fn split_inclusive_ci(s: &[char], pat: &[char]) -> (r: Vec<Vec<char>>)
    requires
        pat@.len() > 0,
    ensures
        views(r@) == split_incl_ci(s@, pat@),
{
    let mut done: Vec<Vec<char>> = Vec::new();
    let mut rest: Vec<char> = sub_chars(s, 0, s.len());
    assert(rest@ =~= s@);
    assert(views(done@) =~= Seq::<Seq<char>>::empty());
    loop
        invariant
            pat@.len() > 0,
            views(done@) + split_incl_ci(rest@, pat@) =~= split_incl_ci(s@, pat@),
        decreases rest@.len(),
    {
        let ghost before = views(done@);
        proof {
            lemma_find_from_ci_found(rest@, pat@, 0);
        }
        let rn = rest.len();
        match find_ci(rest.as_slice(), pat) {
            Some(i) => {
                let end = i + pat.len();
                let piece = sub_chars(rest.as_slice(), 0, end);
                let tail = sub_chars(rest.as_slice(), end, rest.len());
                assert(piece@ =~= rest@.take(end as int));
                assert(tail@ =~= rest@.skip(end as int));
                done.push(piece);
                assert(views(done@) =~= before.push(rest@.take(end as int)));
                rest = tail;
            },
            None => {
                if rest.len() > 0 {
                    let ghost r = rest@;
                    done.push(rest);
                    assert(views(done@) =~= before.push(r));
                } else {
                    assert(before + Seq::<Seq<char>>::empty() =~= before);
                }
                return done;
            },
        }
    }
}

} // verus!
