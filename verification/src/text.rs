//! Character-level text utilities: prefix tests, decimal parsing of the
//! inter-request delay, and fixed-point parsing of priority deltas.
//!
//! Priority scores and score deltas are represented throughout the crate as
//! integer milli-units: a score of `1.0` is the integer `1000`.

use vstd::prelude::*;

verus! {

/// A configuration line is a comment when its first character is `#`.
pub open spec fn spec_is_comment(s: Seq<char>) -> bool {
    s.len() > 0 && s[0] == '#'
}

/// Whether `s` begins with the line-comment marker `#`.
pub fn is_comment(s: &str) -> (r: bool)
    ensures
        r == spec_is_comment(s@),
{
    if s.unicode_len() == 0 {
        false
    } else {
        s.get_char(0) == '#'
    }
}

/// Whether `p` is a prefix of `s`, character for character.
pub fn str_starts_with(s: &str, p: &str) -> (r: bool)
    ensures
        r == p@.is_prefix_of(s@),
{
    let sl: usize = s.unicode_len();
    let pl: usize = p.unicode_len();
    if pl > sl {
        assert(!p@.is_prefix_of(s@));
        return false;
    }
    let mut i: usize = 0;
    while i < pl
        invariant
            0 <= i <= pl,
            pl <= sl,
            pl == p@.len(),
            sl == s@.len(),
            forall|j: int| 0 <= j < i ==> s@[j] == p@[j],
        decreases pl - i,
    {
        if s.get_char(i) != p.get_char(i) {
            assert(!p@.is_prefix_of(s@)) by {
                if p@.is_prefix_of(s@) {
                    assert(p@ =~= s@.subrange(0, p@.len() as int));
                    assert(p@[i as int] == s@.subrange(0, p@.len() as int)[i as int]);
                }
            }
            return false;
        }
        i += 1;
    }
    assert(p@ =~= s@.subrange(0, p@.len() as int));
    true
}

/// Whether the two strings hold the same characters.
pub fn str_eq(a: &str, b: &str) -> (r: bool)
    ensures
        r == (a@ == b@),
{
    let al: usize = a.unicode_len();
    let bl: usize = b.unicode_len();
    if al != bl {
        assert(a@ != b@) by {
            if a@ == b@ {
                assert(a@.len() == b@.len());
            }
        }
        return false;
    }
    let r = str_starts_with(a, b);
    proof {
        if r {
            assert(b@ =~= a@.subrange(0, b@.len() as int));
            assert(a@ =~= a@.subrange(0, a@.len() as int));
        } else {
            assert(a@ != b@) by {
                if a@ == b@ {
                    assert(b@ =~= a@.subrange(0, b@.len() as int));
                }
            }
        }
    }
    r
}

/// A decimal digit.
pub open spec fn is_digit(c: char) -> bool {
    '0' <= c && c <= '9'
}

/// Numeric value of a decimal digit.
pub open spec fn digit_val(c: char) -> int {
    c as u32 - 48
}

/// Every character of `s` is a decimal digit.
pub open spec fn all_digits(s: Seq<char>) -> bool {
    forall|i: int| 0 <= i < s.len() ==> is_digit(#[trigger] s[i])
}

/// Value of a sequence of decimal digits, most significant first.
pub open spec fn dec_val(s: Seq<char>) -> int
    decreases s.len(),
{
    if s.len() == 0 {
        0
    } else {
        dec_val(s.drop_last()) * 10 + digit_val(s.last())
    }
}

pub proof fn lemma_dec_val_nonneg(s: Seq<char>)
    requires
        all_digits(s),
    ensures
        dec_val(s) >= 0,
    decreases s.len(),
{
    if s.len() > 0 {
        assert(all_digits(s.drop_last())) by {
            assert(forall|i: int|
                0 <= i < s.drop_last().len() ==> s.drop_last()[i] == #[trigger] s[i]);
        }
        lemma_dec_val_nonneg(s.drop_last());
    }
}

/// A longer digit string is worth at least as much as any of its prefixes.
pub proof fn lemma_dec_val_prefix(s: Seq<char>, j: int)
    requires
        all_digits(s),
        0 <= j <= s.len(),
    ensures
        dec_val(s) >= dec_val(s.take(j)),
    decreases s.len() - j,
{
    if j < s.len() {
        lemma_dec_val_prefix(s, j + 1);
        assert(s.take(j + 1).drop_last() =~= s.take(j));
        assert(s.take(j + 1).last() == s[j]);
        assert(all_digits(s.take(j))) by {
            assert(forall|i: int| 0 <= i < j ==> s.take(j)[i] == #[trigger] s[i]);
        }
        lemma_dec_val_nonneg(s.take(j));
        assert(dec_val(s.take(j + 1)) == dec_val(s.take(j)) * 10 + digit_val(s[j]));
        assert(dec_val(s.take(j)) * 10 >= dec_val(s.take(j)));
    } else {
        assert(s.take(j) =~= s);
    }
}

/// The digit part of an unsigned decimal literal: an optional leading `+`
/// is skipped, as the standard integer parser accepts one.
pub open spec fn u64_digits(s: Seq<char>) -> Seq<char> {
    if s.len() > 0 && s[0] == '+' {
        s.drop_first()
    } else {
        s
    }
}

/// What parsing an unsigned decimal line yields: the value of the digits,
/// or nothing when the line is not a plain decimal number or the value
/// does not fit in a `u64`.
pub open spec fn spec_parse_u64(s: Seq<char>) -> Option<u64> {
    let d = u64_digits(s);
    if d.len() > 0 && all_digits(d) && dec_val(d) <= u64::MAX {
        Some(dec_val(d) as u64)
    } else {
        None
    }
}

/// Parses a non-negative decimal integer, as the inter-request delay line
/// of the root configuration is written.
pub fn parse_u64(s: &str) -> (r: Option<u64>)
    ensures
        r == spec_parse_u64(s@),
{
    let n: usize = s.unicode_len();
    let mut start: usize = 0;
    if n > 0 && s.get_char(0) == '+' {
        start = 1;
    }
    proof {
        assert(u64_digits(s@) =~= s@.subrange(start as int, n as int));
    }
    if start == n {
        return None;
    }
    let ghost d = u64_digits(s@);
    let mut acc: u128 = 0;
    let mut i: usize = start;
    while i < n
        invariant
            start <= i <= n,
            n == s@.len(),
            start <= 1,
            d == u64_digits(s@),
            d =~= s@.subrange(start as int, n as int),
            acc <= u64::MAX,
            all_digits(d.take(i - start)),
            acc == dec_val(d.take(i - start)),
        decreases n - i,
    {
        let c = s.get_char(i);
        if !(c >= '0' && c <= '9') {
            assert(!all_digits(d)) by {
                assert(d[i - start] == s@[i as int]);
            }
            return None;
        }
        let dv: u128 = (c as u32 - 48) as u128;
        proof {
            assert(d.take(i - start + 1).drop_last() =~= d.take(i - start));
            assert(d.take(i - start + 1).last() == s@[i as int]);
        }
        let next: u128 = acc * 10 + dv;
        if next > u64::MAX as u128 {
            proof {
                assert(dec_val(d.take(i - start + 1)) > u64::MAX);
                if all_digits(d) {
                    lemma_dec_val_prefix(d, i - start + 1);
                }
            }
            return None;
        }
        acc = next;
        i += 1;
    }
    proof {
        assert(d.take(n - start) =~= d);
    }
    Some(acc as u64)
}

/// Index of the first `.` in `s`, or `s.len()` when there is none.
pub open spec fn first_dot(s: Seq<char>) -> int
    decreases s.len(),
{
    if s.len() == 0 {
        0
    } else if s[0] == '.' {
        0
    } else {
        1 + first_dot(s.drop_first())
    }
}

pub proof fn lemma_first_dot(s: Seq<char>)
    ensures
        0 <= first_dot(s) <= s.len(),
        forall|i: int| 0 <= i < first_dot(s) ==> s[i] != '.',
        first_dot(s) < s.len() ==> s[first_dot(s)] == '.',
    decreases s.len(),
{
    if s.len() > 0 && s[0] != '.' {
        lemma_first_dot(s.drop_first());
        assert forall|i: int| 0 <= i < first_dot(s) implies s[i] != '.' by {
            if i >= 1 {
                assert(s.drop_first()[i - 1] == s[i]);
            }
        }
        if first_dot(s) < s.len() {
            assert(s.drop_first()[first_dot(s) - 1] == s[first_dot(s)]);
        }
    }
}

/// Value in milli-units of the fractional digits `f`: only the first three
/// digits carry weight, the rest are truncated away.
pub open spec fn frac_milli(f: Seq<char>) -> int {
    (if f.len() > 0 { 100 * digit_val(f[0]) } else { 0 })
    + (if f.len() > 1 { 10 * digit_val(f[1]) } else { 0 })
    + (if f.len() > 2 { digit_val(f[2]) } else { 0 })
}

/// The unsigned part of a delta literal: digits, optionally split by one dot.
pub open spec fn delta_body_ok(b: Seq<char>) -> bool {
    let dot = first_dot(b);
    let ipart = b.take(dot);
    let fpart = if dot < b.len() { b.skip(dot + 1) } else { Seq::<char>::empty() };
    all_digits(ipart) && all_digits(fpart) && (ipart.len() > 0 || fpart.len() > 0)
        && dec_val(ipart) <= 999
}

/// Milli-unit value of a valid delta body.
pub open spec fn delta_body_val(b: Seq<char>) -> int {
    let dot = first_dot(b);
    let ipart = b.take(dot);
    let fpart = if dot < b.len() { b.skip(dot + 1) } else { Seq::<char>::empty() };
    dec_val(ipart) * 1000 + frac_milli(fpart)
}

/// The signed body of a delta literal: an optional leading `+` or `-`.
pub open spec fn delta_negative(s: Seq<char>) -> bool {
    s.len() > 0 && s[0] == '-'
}

pub open spec fn delta_body(s: Seq<char>) -> Seq<char> {
    if s.len() > 0 && (s[0] == '-' || s[0] == '+') {
        s.drop_first()
    } else {
        s
    }
}

/// What parsing a priority-delta line yields, in milli-units: a plain
/// decimal literal with up to three significant fractional digits and an
/// integer part of at most three digits' worth; anything else is malformed.
pub open spec fn spec_parse_delta(s: Seq<char>) -> Option<i64> {
    let b = delta_body(s);
    if delta_body_ok(b) {
        if delta_negative(s) {
            Some((-delta_body_val(b)) as i64)
        } else {
            Some(delta_body_val(b) as i64)
        }
    } else {
        None
    }
}

/// Parses a priority-delta line such as `-0.2` into milli-units (`-200`).
///
/// Deltas are modelled as fixed-point milli-unit values; a literal whose
/// magnitude reaches `1000.0`, or one using exponent notation, lies outside
/// the model and is treated as malformed, to be skipped by the caller.
pub fn parse_delta_milli(s: &str) -> (r: Option<i64>)
    ensures
        r == spec_parse_delta(s@),
        r matches Some(d) ==> -1000000 < d < 1000000,
{
    let n: usize = s.unicode_len();
    let mut start: usize = 0;
    let mut negative: bool = false;
    if n > 0 {
        let c0 = s.get_char(0);
        if c0 == '-' {
            negative = true;
            start = 1;
        } else if c0 == '+' {
            start = 1;
        }
    }
    let ghost b = delta_body(s@);
    proof {
        assert(b =~= s@.subrange(start as int, n as int));
        assert(negative == delta_negative(s@));
    }
    let ghost dot = first_dot(b);
    proof {
        lemma_first_dot(b);
    }
    // Integer part.
    let mut ival: u32 = 0;
    let mut i: usize = start;
    while i < n && s.get_char(i) != '.'
        invariant
            start <= i <= n,
            n == s@.len(),
            start <= 1,
            b == delta_body(s@),
            b =~= s@.subrange(start as int, n as int),
            dot == first_dot(b),
            0 <= dot <= b.len(),
            forall|k: int| 0 <= k < dot ==> b[k] != '.',
            dot < b.len() ==> b[dot] == '.',
            i - start <= dot,
            ival <= 999,
            all_digits(b.take(i - start)),
            ival == dec_val(b.take(i - start)),
        decreases n - i,
    {
        let c = s.get_char(i);
        proof {
            assert(b[i - start] == s@[i as int]);
            if i - start == dot {
                assert(b[dot] == '.');
            }
        }
        if !(c >= '0' && c <= '9') {
            assert(!all_digits(b.take(dot))) by {
                assert(b.take(dot)[i - start] == b[i - start]);
            }
            return None;
        }
        proof {
            assert(b.take(i - start + 1).drop_last() =~= b.take(i - start));
            assert(b.take(i - start + 1).last() == b[i - start]);
        }
        let dv: u32 = c as u32 - 48;
        let next: u32 = ival * 10 + dv;
        if next > 999 {
            proof {
                assert(dec_val(b.take(i - start + 1)) > 999);
                if all_digits(b.take(dot)) {
                    lemma_dec_val_prefix(b.take(dot), i - start + 1);
                    assert(b.take(dot).take(i - start + 1) =~= b.take(i - start + 1));
                }
            }
            return None;
        }
        ival = next;
        i += 1;
    }
    let int_len: usize = i - start;
    let ghost ipart = b.take(dot);
    proof {
        if i < n {
            assert(s@[i as int] == '.');
            assert(b[i - start] == '.');
            assert(i - start == dot) by {
                if i - start < dot {
                    assert(b[i - start] != '.');
                }
            }
        } else {
            assert(i - start == b.len());
            assert(dot == b.len());
        }
        assert(ipart =~= b.take(i - start));
    }
    // Fractional part.
    let ghost fpart = if dot < b.len() { b.skip(dot + 1) } else { Seq::<char>::empty() };
    let mut fval: u32 = 0;
    let mut flen: usize = 0;
    if i < n {
        // Skip the dot.
        i += 1;
        proof {
            assert(fpart =~= s@.subrange(i as int, n as int));
        }
        while i < n
            invariant
                0 < i <= n,
                n == s@.len(),
                fpart == b.skip(dot + 1),
                b == delta_body(s@),
                b =~= s@.subrange(start as int, n as int),
                dot == first_dot(b),
                dot < b.len(),
                i - flen == start + dot + 1,
                flen <= i,
                0 <= dot,
                start <= 1,
                fpart =~= s@.subrange((i - flen) as int, n as int),
                flen <= fpart.len(),
                all_digits(fpart.take(flen as int)),
                fval == frac_milli(fpart.take(flen as int)),
                fval <= 999,
            decreases n - i,
        {
            let c = s.get_char(i);
            proof {
                assert(s@.subrange((i - flen) as int, n as int)[flen as int] == s@[i as int]);
                assert(fpart[flen as int] == s@[i as int]);
            }
            if !(c >= '0' && c <= '9') {
                assert(!all_digits(fpart)) by {
                    assert(fpart.take(flen as int).len() == flen);
                }
                return None;
            }
            proof {
                assert(fpart.take(flen + 1).drop_last() =~= fpart.take(flen as int));
                assert(fpart.take(flen + 1).last() == fpart[flen as int]);
            }
            proof {
                if flen + 1 >= 1 {
                    assert(fpart.take(flen + 1)[0] == fpart[0]);
                }
                if flen + 1 >= 2 {
                    assert(fpart.take(flen + 1)[1] == fpart[1]);
                }
                if flen + 1 >= 3 {
                    assert(fpart.take(flen + 1)[2] == fpart[2]);
                }
                if flen >= 1 {
                    assert(fpart.take(flen as int)[0] == fpart[0]);
                }
                if flen >= 2 {
                    assert(fpart.take(flen as int)[1] == fpart[1]);
                }
                if flen >= 3 {
                    assert(fpart.take(flen as int)[2] == fpart[2]);
                }
            }
            if flen == 0 {
                fval = 100 * (c as u32 - 48);
            } else if flen == 1 {
                fval = fval + 10 * (c as u32 - 48);
            } else if flen == 2 {
                fval = fval + (c as u32 - 48);
            }
            flen += 1;
            i += 1;
        }
        proof {
            assert(fpart.take(flen as int) =~= fpart);
        }
    } else {
        proof {
            assert(fpart =~= Seq::<char>::empty());
        }
    }
    if int_len == 0 && flen == 0 {
        // No digits at all: just a sign, a dot, or a sign and a dot.
        proof {
            assert(ipart.len() == 0 && fpart.len() == 0);
        }
        return None;
    }
    proof {
        assert(ipart.len() > 0 || fpart.len() > 0);
        assert(delta_body_ok(b));
        assert(fval == frac_milli(fpart));
        assert(fval <= 999) by {
            if fpart.len() > 0 {
                assert(is_digit(fpart[0]));
            }
            if fpart.len() > 1 {
                assert(is_digit(fpart[1]));
            }
            if fpart.len() > 2 {
                assert(is_digit(fpart[2]));
            }
        }
    }
    let magnitude: i64 = (ival as i64) * 1000 + (fval as i64);
    if negative {
        Some(-magnitude)
    } else {
        Some(magnitude)
    }
}

} // verus!
