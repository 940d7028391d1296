//! Recognizers for the numeric value shapes the coercion layer accepts: an
//! unsigned integer in the style of `u64` parsing, and a decimal literal in
//! the style of floating-point parsing.

use vstd::prelude::*;

use crate::chars::{spec_is_digit, spec_lower_seq};

verus! {

/// Whether every character of `s` is an ASCII digit.
pub open spec fn all_digits(s: Seq<char>) -> bool {
    forall|i: int| 0 <= i < s.len() ==> spec_is_digit(s[i])
}

/// The numeric value of an all-digit sequence, most significant digit first.
pub open spec fn spec_digits_val(s: Seq<char>) -> int
    decreases s.len(),
{
    if s.len() == 0 {
        0
    } else {
        spec_digits_val(s.drop_last()) * 10 + (s[s.len() - 1] as int - '0' as int)
    }
}

/// A digit string's value only grows as digits are appended.
pub proof fn lemma_digits_val_prefix(s: Seq<char>, k: int)
    requires
        all_digits(s),
        0 <= k <= s.len(),
    ensures
        spec_digits_val(s) >= spec_digits_val(s.subrange(0, k)),
        spec_digits_val(s) >= 0,
    decreases s.len() - k,
{
    if k == s.len() {
        assert(s.subrange(0, k) =~= s);
        lemma_digits_val_nonneg(s);
    } else {
        lemma_digits_val_prefix(s, k + 1);
        let p1 = s.subrange(0, k + 1);
        let p0 = s.subrange(0, k);
        assert(p1.drop_last() =~= p0);
        assert(spec_digits_val(p1) == spec_digits_val(p0) * 10 + (s[k] as int - '0' as int));
        assert(spec_digits_val(p0) >= 0) by {
            lemma_digits_val_nonneg(p0);
        }
    }
}

/// The value of an all-digit sequence is never negative.
pub proof fn lemma_digits_val_nonneg(s: Seq<char>)
    requires
        all_digits(s),
    ensures
        spec_digits_val(s) >= 0,
    decreases s.len(),
{
    if s.len() == 0 {
    } else {
        assert(all_digits(s.drop_last()));
        lemma_digits_val_nonneg(s.drop_last());
    }
}

/// How `u64` parsing reads a string: an optional leading `+`, then one or
/// more digits whose value fits in a `u64`; anything else is rejected.
pub open spec fn spec_parse_u64(s: Seq<char>) -> Option<u64> {
    let d = if s.len() >= 1 && s[0] == '+' {
        s.subrange(1, s.len() as int)
    } else {
        s
    };
    if d.len() >= 1 && all_digits(d) && spec_digits_val(d) <= u64::MAX {
        Some(spec_digits_val(d) as u64)
    } else {
        None
    }
}

/// Parses an unsigned integer the way `u64` is parsed from text: an optional
/// `+` sign and decimal digits, rejecting overflow.
pub fn parse_u64(v: &Vec<char>) -> (r: Option<u64>)
    ensures
        r == spec_parse_u64(v@),
{
    let mut i: usize = 0;
    if v.len() >= 1 && v[0] == '+' {
        i = 1;
    }
    let ghost d = if v@.len() >= 1 && v@[0] == '+' {
        v@.subrange(1, v@.len() as int)
    } else {
        v@
    };
    let start = i;
    if i >= v.len() {
        return None;
    }
    let mut acc: u64 = 0;
    while i < v.len()
        invariant
            start <= i <= v@.len(),
            start <= 1,
            d == v@.subrange(start as int, v@.len() as int),
            d == (if v@.len() >= 1 && v@[0] == '+' {
                v@.subrange(1, v@.len() as int)
            } else {
                v@
            }),
            d.len() == v@.len() - start,
            forall|j: int| start <= j < i ==> spec_is_digit(v@[j]),
            all_digits(d.subrange(0, i - start)),
            acc == spec_digits_val(d.subrange(0, i - start)),
        decreases v@.len() - i,
    {
        let c = v[i];
        if !crate::chars::is_digit(c) {
            proof {
                assert(d[i - start] == v@[i as int]);
                assert(!spec_is_digit(d[i - start]));
                assert(!all_digits(d));
                assert(spec_parse_u64(v@) is None);
            }
            return None;
        }
        proof {
            assert('0' <= c && c <= '9');
            assert('0' as u32 == 48 && '9' as u32 == 57);
            assert(48 <= c as u32 <= 57);
        }
        let dig: u64 = (c as u32 as u64) - ('0' as u32 as u64);
        proof {
            let p0 = d.subrange(0, i - start);
            let p1 = d.subrange(0, i + 1 - start);
            assert(p1.drop_last() =~= p0);
            assert(p1[p1.len() - 1] == v@[i as int]);
            assert(dig == c as int - '0' as int);
        }
        if acc > (u64::MAX - dig) / 10 {
            proof {
                let p1 = d.subrange(0, i + 1 - start);
                assert(all_digits(p1));
                assert(spec_digits_val(p1) == acc * 10 + dig);
                assert(spec_digits_val(p1) > u64::MAX);
                lemma_digits_val_prefix_if_digits(d, i + 1 - start);
                assert(spec_parse_u64(v@) is None);
            }
            return None;
        }
        acc = acc * 10 + dig;
        i += 1;
    }
    proof {
        assert(d.subrange(0, d.len() as int) =~= d);
    }
    Some(acc)
}

/// If a prefix of a digit string already exceeds a bound, so does the whole
/// string, provided the rest are digits too; if not all digits, parsing
/// rejects anyway.
proof fn lemma_digits_val_prefix_if_digits(d: Seq<char>, k: int)
    requires
        0 <= k <= d.len(),
        all_digits(d.subrange(0, k)),
        spec_digits_val(d.subrange(0, k)) > u64::MAX,
    ensures
        all_digits(d) ==> spec_digits_val(d) > u64::MAX,
{
    if all_digits(d) {
        lemma_digits_val_prefix(d, k);
    }
}

/// The position of the first character at or after `i` that is not a digit.
pub open spec fn spec_digits_end(s: Seq<char>, i: int) -> int
    decreases s.len() - i,
{
    if i < 0 || i >= s.len() || !spec_is_digit(s[i]) {
        i
    } else {
        spec_digits_end(s, i + 1)
    }
}

pub proof fn lemma_digits_end_bounds(s: Seq<char>, i: int)
    requires
        0 <= i <= s.len(),
    ensures
        i <= spec_digits_end(s, i) <= s.len(),
        forall|j: int| i <= j < spec_digits_end(s, i) ==> spec_is_digit(s[j]),
        spec_digits_end(s, i) < s.len() ==> !spec_is_digit(s[spec_digits_end(s, i)]),
    decreases s.len() - i,
{
    if i < s.len() && spec_is_digit(s[i]) {
        lemma_digits_end_bounds(s, i + 1);
    }
}

/// Scans past digits, returning the first index at or after `i` holding a
/// non-digit.
fn digits_end(v: &Vec<char>, i: usize) -> (r: usize)
    requires
        i <= v@.len(),
    ensures
        r == spec_digits_end(v@, i as int),
        i <= r <= v@.len(),
    decreases v@.len() - i,
{
    if i < v.len() && crate::chars::is_digit(v[i]) {
        digits_end(v, i + 1)
    } else {
        i
    }
}

/// The spelling of infinity and not-a-number accepted by floating-point
/// parsing, lower-cased.
pub open spec fn spec_is_inf_nan(t: Seq<char>) -> bool {
    spec_lower_seq(t) == seq!['i', 'n', 'f'] || spec_lower_seq(t) == seq![
        'i',
        'n',
        'f',
        'i',
        'n',
        'i',
        't',
        'y',
    ] || spec_lower_seq(t) == seq!['n', 'a', 'n']
}

/// How floating-point parsing reads a string: an optional sign, then either
/// an infinity or not-a-number spelling, or a mantissa of digits with at most
/// one point and at least one digit, with an optional exponent.
pub open spec fn spec_is_decimal(s: Seq<char>) -> bool {
    let i0: int = if s.len() >= 1 && (s[0] == '+' || s[0] == '-') {
        1
    } else {
        0
    };
    spec_is_inf_nan(s.subrange(i0, s.len() as int)) || spec_is_number(s, i0)
}

/// The mantissa-and-exponent part of a decimal, beginning at `i0`.
pub open spec fn spec_is_number(s: Seq<char>, i0: int) -> bool {
    let d1 = spec_digits_end(s, i0);
    if d1 < s.len() && s[d1] == '.' {
        let d2 = spec_digits_end(s, d1 + 1);
        (d1 > i0 || d2 > d1 + 1) && spec_exp_or_end(s, d2)
    } else {
        d1 > i0 && spec_exp_or_end(s, d1)
    }
}

/// After the mantissa either the string ends, or an exponent marker with an
/// optionally signed non-empty digit string closes it.
pub open spec fn spec_exp_or_end(s: Seq<char>, i: int) -> bool {
    if i == s.len() {
        true
    } else if s[i] == 'e' || s[i] == 'E' {
        let j: int = if i + 1 < s.len() && (s[i + 1] == '+' || s[i + 1] == '-') {
            i + 2
        } else {
            i + 1
        };
        let d = spec_digits_end(s, j);
        d > j && d == s.len()
    } else {
        false
    }
}

/// Whether `v` is accepted by floating-point parsing; see
/// [`spec_is_decimal`].
pub fn is_decimal(v: &Vec<char>) -> (r: bool)
    ensures
        r == spec_is_decimal(v@),
{
    let mut i0: usize = 0;
    if v.len() >= 1 && (v[0] == '+' || v[0] == '-') {
        i0 = 1;
    }
    if is_inf_nan_from(v, i0) {
        return true;
    }
    proof {
        lemma_digits_end_bounds(v@, i0 as int);
    }
    let d1 = digits_end(v, i0);
    if d1 < v.len() && v[d1] == '.' {
        proof {
            lemma_digits_end_bounds(v@, d1 + 1);
        }
        let d2 = digits_end(v, d1 + 1);
        (d1 > i0 || d2 > d1 + 1) && exp_or_end(v, d2)
    } else {
        d1 > i0 && exp_or_end(v, d1)
    }
}

fn exp_or_end(v: &Vec<char>, i: usize) -> (r: bool)
    requires
        i <= v@.len(),
    ensures
        r == spec_exp_or_end(v@, i as int),
{
    if i == v.len() {
        true
    } else if v[i] == 'e' || v[i] == 'E' {
        let mut j: usize = i + 1;
        if i + 1 < v.len() && (v[i + 1] == '+' || v[i + 1] == '-') {
            j = i + 2;
        }
        proof {
            lemma_digits_end_bounds(v@, j as int);
        }
        let d = digits_end(v, j);
        d > j && d == v.len()
    } else {
        false
    }
}

fn is_inf_nan_from(v: &Vec<char>, i0: usize) -> (r: bool)
    requires
        i0 <= v@.len(),
    ensures
        r == spec_is_inf_nan(v@.subrange(i0 as int, v@.len() as int)),
{
    let n = v.len() - i0;
    let ghost t = v@.subrange(i0 as int, v@.len() as int);
    if n == 3 {
        let a = crate::chars::lower(v[i0]);
        let b = crate::chars::lower(v[i0 + 1]);
        let c = crate::chars::lower(v[i0 + 2]);
        proof {
            assert(spec_lower_seq(t) =~= seq![
                crate::chars::spec_lower(t[0]),
                crate::chars::spec_lower(t[1]),
                crate::chars::spec_lower(t[2]),
            ]);
        }
        (a == 'i' && b == 'n' && c == 'f') || (a == 'n' && b == 'a' && c == 'n')
    } else if n == 8 {
        let c0 = crate::chars::lower(v[i0]);
        let c1 = crate::chars::lower(v[i0 + 1]);
        let c2 = crate::chars::lower(v[i0 + 2]);
        let c3 = crate::chars::lower(v[i0 + 3]);
        let c4 = crate::chars::lower(v[i0 + 4]);
        let c5 = crate::chars::lower(v[i0 + 5]);
        let c6 = crate::chars::lower(v[i0 + 6]);
        let c7 = crate::chars::lower(v[i0 + 7]);
        proof {
            assert(spec_lower_seq(t) =~= seq![
                crate::chars::spec_lower(t[0]),
                crate::chars::spec_lower(t[1]),
                crate::chars::spec_lower(t[2]),
                crate::chars::spec_lower(t[3]),
                crate::chars::spec_lower(t[4]),
                crate::chars::spec_lower(t[5]),
                crate::chars::spec_lower(t[6]),
                crate::chars::spec_lower(t[7]),
            ]);
        }
        c0 == 'i' && c1 == 'n' && c2 == 'f' && c3 == 'i' && c4 == 'n' && c5 == 'i' && c6 == 't'
            && c7 == 'y'
    } else {
        proof {
            assert(spec_lower_seq(t).len() == t.len());
        }
        false
    }
}

} // verus!
