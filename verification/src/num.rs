//! Decimal integers: the grammar of `str::parse` for integers and the
//! zero-padded decimal rendering of `format!("{:0w}", n)`.
use vstd::prelude::*;

verus! {

/// An ASCII decimal digit.
pub open spec fn is_digit(c: char) -> bool {
    '0' <= c && c <= '9'
}

/// Every character is an ASCII decimal digit.
pub open spec fn all_digits(s: Seq<char>) -> bool {
    forall|i: int| 0 <= i < s.len() ==> is_digit(#[trigger] s[i])
}

/// The value of a digit character.
pub open spec fn digit_val(c: char) -> nat {
    (c as int - '0' as int) as nat
}

/// The value of a string of decimal digits.
pub open spec fn digits_value(s: Seq<char>) -> nat
    decreases s.len(),
{
    if s.len() == 0 {
        0
    } else {
        digits_value(s.drop_last()) * 10 + digit_val(s.last())
    }
}

/// The magnitude that `str::parse` reads from an unsigned decimal:
/// an optional `+` (not alone) followed by one or more ASCII digits.
pub open spec fn parse_unsigned(s: Seq<char>) -> Option<nat> {
    let body = if s.len() > 1 && s[0] == '+' { s.drop_first() } else { s };
    if body.len() > 0 && all_digits(body) {
        Some(digits_value(body))
    } else {
        None
    }
}

/// The value that `str::parse` reads from a signed decimal: an optional sign
/// (not alone) followed by one or more ASCII digits.
pub open spec fn parse_signed(s: Seq<char>) -> Option<int> {
    if s.len() > 1 && s[0] == '-' {
        let body = s.drop_first();
        if all_digits(body) {
            Some(-(digits_value(body) as int))
        } else {
            None
        }
    } else {
        match parse_unsigned(s) {
            Some(v) => Some(v as int),
            None => None,
        }
    }
}

/// `parse::<T>()` for an unsigned type whose largest value is `max`.
pub open spec fn parse_uint_max(s: Seq<char>, max: nat) -> Option<nat> {
    match parse_unsigned(s) {
        Some(v) => if v <= max { Some(v) } else { None },
        None => None,
    }
}

/// The value of a prefix of a digit string is at most that of the whole.
pub proof fn lemma_digits_value_prefix(s: Seq<char>, i: int)
    requires
        0 <= i <= s.len(),
        all_digits(s),
    ensures
        digits_value(s.take(i)) <= digits_value(s),
    decreases s.len() - i,
{
    if i < s.len() {
        lemma_digits_value_prefix(s, i + 1);
        assert(s.take(i + 1).drop_last() =~= s.take(i));
    } else {
        assert(s.take(i) =~= s);
    }
}

/// The value of `s[from..]` when it is one or more ASCII digits that fit in a `u64`.
fn digits_u64(s: &[char], from: usize) -> (r: Option<u64>)
    requires
        from <= s@.len(),
    ensures
        ({
            let body = s@.subrange(from as int, s@.len() as int);
            r == (if body.len() > 0 && all_digits(body) && digits_value(body) <= u64::MAX {
                Some(digits_value(body) as u64)
            } else {
                None::<u64>
            })
        }),
{
    let n = s.len();
    let ghost body = s@.subrange(from as int, n as int);
    if from >= n {
        return None;
    }
    let mut v: u128 = 0;
    let mut i = from;
    while i < n
        invariant
            from <= i <= n,
            n == s@.len(),
            body == s@.subrange(from as int, n as int),
            all_digits(body.take(i - from)),
            v == digits_value(body.take(i - from)),
            v <= u64::MAX,
        decreases n - i,
    {
        let c = s[i];
        if !('0' <= c && c <= '9') {
            assert(body[i - from] == c);
            return None;
        }
        assert(body.take(i - from + 1).drop_last() =~= body.take(i - from));
        let d = (c as u32 - '0' as u32) as u128;
        v = v * 10 + d;
        i = i + 1;
        if v > u64::MAX as u128 {
            proof {
                if all_digits(body) {
                    lemma_digits_value_prefix(body, i - from);
                }
            }
            return None;
        }
    }
    assert(body.take(n - from) =~= body);
    Some(v as u64)
}

/// `str::parse::<u64>()` on the characters `s`.
pub fn parse_u64(s: &[char]) -> (r: Option<u64>)
    ensures
        r == (match parse_uint_max(s@, u64::MAX as nat) {
            Some(v) => Some(v as u64),
            None => None::<u64>,
        }),
{
    let from: usize = if s.len() > 1 && s[0] == '+' { 1 } else { 0 };
    assert(s@.subrange(from as int, s@.len() as int) =~= (if s@.len() > 1 && s@[0] == '+' {
        s@.drop_first()
    } else {
        s@
    }));
    digits_u64(s, from)
}

/// `str::parse::<i64>()` on the characters `s`.
pub fn parse_i64(s: &[char]) -> (r: Option<i64>)
    ensures
        r == (match parse_signed(s@) {
            Some(v) => if i64::MIN <= v <= i64::MAX { Some(v as i64) } else { None::<i64> },
            None => None::<i64>,
        }),
{
    if s.len() > 1 && s[0] == '-' {
        assert(s@.subrange(1, s@.len() as int) =~= s@.drop_first());
        match digits_u64(s, 1) {
            Some(m) => {
                if m <= 9223372036854775808u64 {
                    if m == 9223372036854775808u64 {
                        Some(i64::MIN)
                    } else {
                        Some(-(m as i64))
                    }
                } else {
                    None
                }
            },
            None => {
                proof {
                    let body = s@.drop_first();
                    if all_digits(body) {
                        assert(body.len() > 0);
                    }
                }
                None
            },
        }
    } else {
        match parse_u64(s) {
            Some(m) => if m <= i64::MAX as u64 { Some(m as i64) } else { None },
            None => None,
        }
    }
}

/// The digit character for `d < 10`.
pub open spec fn digit_char(d: nat) -> char {
    ((d + 48) as u32) as char
}

/// The decimal digits of `n`, most significant first, without leading zeros.
pub open spec fn dec(n: nat) -> Seq<char>
    decreases n,
{
    if n < 10 {
        seq![digit_char(n)]
    } else {
        dec(n / 10).push(digit_char(n % 10))
    }
}

/// The decimal digits of `n` are digits, read back as `n`.
pub proof fn lemma_dec_reads_back(n: nat)
    ensures
        dec(n).len() > 0,
        all_digits(dec(n)),
        digits_value(dec(n)) == n,
    decreases n,
{
    if n >= 10 {
        lemma_dec_reads_back(n / 10);
        let d = dec(n / 10);
        let c = digit_char(n % 10);
        assert(dec(n) == d.push(c));
        assert(dec(n).drop_last() =~= d);
        assert forall|i: int| 0 <= i < dec(n).len() implies is_digit(#[trigger] dec(n)[i]) by {
            if i < d.len() {
                assert(dec(n)[i] == d[i]);
            }
        }
        assert(digit_val(c) == n % 10);
        assert(digits_value(dec(n)) == digits_value(d) * 10 + digit_val(c));
        assert(digits_value(d) == n / 10);
        assert((n / 10) * 10 + n % 10 == n);
        assert(digits_value(dec(n)) == n);
    } else {
        assert(dec(n).drop_last() =~= Seq::<char>::empty());
        assert(digit_val(digit_char(n)) == n);
        assert(digits_value(dec(n)) == digits_value(Seq::<char>::empty()) * 10 + digit_val(digit_char(n)));
        assert(digits_value(dec(n)) == n);
    }
}

/// `s` with zeros put in front until it is `w` characters long.
pub open spec fn pad0(s: Seq<char>, w: nat) -> Seq<char> {
    if s.len() >= w {
        s
    } else {
        Seq::new((w - s.len()) as nat, |i: int| '0') + s
    }
}

/// `format!("{:0w}", n)` for an integer `n`: the sign comes first and the
/// zeros go between the sign and the digits.
pub open spec fn fmt_int(n: int, w: nat) -> Seq<char> {
    if n < 0 {
        seq!['-'] + pad0(dec((-n) as nat), if w > 0 { (w - 1) as nat } else { 0 })
    } else {
        pad0(dec(n as nat), w)
    }
}

fn push_dec(n: u64, out: &mut Vec<char>)
    ensures
        final(out)@ == old(out)@ + dec(n as nat),
    decreases n,
{
    if n >= 10 {
        push_dec(n / 10, out);
    }
    let d = (n % 10) as u8;
    let c = (d + 48u8) as char;
    assert(c == digit_char((n % 10) as nat));
    out.push(c);
}

fn pad_zeros(out: &mut Vec<char>, k: usize)
    ensures
        final(out)@ == old(out)@ + Seq::new(k as nat, |i: int| '0'),
{
    let mut i: usize = 0;
    while i < k
        invariant
            i <= k,
            out@ == old(out)@ + Seq::new(i as nat, |j: int| '0'),
        decreases k - i,
    {
        out.push('0');
        i = i + 1;
        assert(out@ =~= old(out)@ + Seq::new(i as nat, |j: int| '0'));
    }
}

/// `format!("{:0w}", n)` for an unsigned integer.
pub fn fmt_u64(n: u64, w: usize) -> (r: String)
    ensures
        r@ == pad0(dec(n as nat), w as nat),
{
    let mut digits: Vec<char> = Vec::new();
    push_dec(n, &mut digits);
    assert(digits@ =~= dec(n as nat));
    let mut out: Vec<char> = Vec::new();
    if digits.len() < w {
        pad_zeros(&mut out, w - digits.len());
    }
    let mut i: usize = 0;
    let ghost pre = out@;
    while i < digits.len()
        invariant
            i <= digits.len(),
            out@ == pre + digits@.take(i as int),
        decreases digits.len() - i,
    {
        out.push(digits[i]);
        i = i + 1;
        assert(out@ =~= pre + digits@.take(i as int));
    }
    assert(digits@.take(digits.len() as int) =~= digits@);
    assert(out@ =~= pad0(dec(n as nat), w as nat));
    crate::text::string_of(&out)
}

/// `format!("{:0w}", n)` for a signed integer.
pub fn fmt_i64(n: i64, w: usize) -> (r: String)
    ensures
        r@ == fmt_int(n as int, w as nat),
{
    if n < 0 {
        let m: u64 = if n == i64::MIN { 9223372036854775808u64 } else { (-n) as u64 };
        let body = fmt_u64(m, if w > 0 { w - 1 } else { 0 });
        proof {
            reveal_strlit("-");
        }
        crate::text::concat2("-", body.as_str())
    } else {
        fmt_u64(n as u64, w)
    }
}

/// `min(digits_value(s[from..to]), cap)`, for a run of digits.
pub fn digits_saturating(s: &[char], from: usize, to: usize, cap: u64) -> (r: u64)
    requires
        from <= to <= s@.len(),
        all_digits(s@.subrange(from as int, to as int)),
        0 < cap <= 1_000_000_000_000,
    ensures
        r as int == if digits_value(s@.subrange(from as int, to as int)) < cap {
            digits_value(s@.subrange(from as int, to as int)) as int
        } else {
            cap as int
        },
{
    let ghost body = s@.subrange(from as int, to as int);
    let mut v: u64 = 0;
    let mut i = from;
    while i < to
        invariant
            from <= i <= to <= s@.len(),
            body == s@.subrange(from as int, to as int),
            all_digits(body),
            0 < cap <= 1_000_000_000_000,
            v as int == if digits_value(body.take(i - from)) < cap {
                digits_value(body.take(i - from)) as int
            } else {
                cap as int
            },
        decreases to - i,
    {
        assert(body.take(i - from + 1).drop_last() =~= body.take(i - from));
        assert(body[i - from] == s@[i as int]);
        let d = (s[i] as u32 - '0' as u32) as u64;
        let ghost old_dv = digits_value(body.take(i - from));
        if v < cap {
            let w = v * 10 + d;
            v = if w < cap { w } else { cap };
        } else {
            assert(old_dv * 10 + d >= cap) by (nonlinear_arith)
                requires old_dv >= cap, d >= 0;
        }
        i = i + 1;
    }
    assert(body.take(to - from) =~= body);
    v
}

/// Ten to the power `k`.
pub open spec fn pow10(k: nat) -> nat
    decreases k,
{
    if k == 0 { 1 } else { 10 * pow10((k - 1) as nat) }
}

/// A string of `k` digits is worth less than 10^k.
pub proof fn lemma_digits_value_bound(s: Seq<char>)
    requires
        all_digits(s),
    ensures
        digits_value(s) < pow10(s.len()),
    decreases s.len(),
{
    if s.len() > 0 {
        assert(all_digits(s.drop_last())) by {
            assert forall|i: int| 0 <= i < s.drop_last().len() implies is_digit(#[trigger] s.drop_last()[i]) by {
                assert(s.drop_last()[i] == s[i]);
            }
        }
        lemma_digits_value_bound(s.drop_last());
        assert(is_digit(s[s.len() - 1]));
        let a = digits_value(s.drop_last());
        let p = pow10(s.drop_last().len());
        assert(a * 10 + digit_val(s.last()) < 10 * p) by (nonlinear_arith)
            requires a < p, digit_val(s.last()) < 10;
    }
}

} // verus!
