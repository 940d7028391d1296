//! Character-level helpers: conversions between `&str`, `Vec<char>` and
//! `String`, ASCII classification, and lower-casing.

use vstd::prelude::*;
use vstd::string::StrSliceExecFns;
use vstd::string::StringExecFns;

verus! {

/// True for the blank characters the query grammar skips between tokens.
pub open spec fn spec_is_ws(c: char) -> bool {
    c == ' ' || c == '\t' || c == '\n' || c == '\r'
}

/// True for an ASCII decimal digit.
pub open spec fn spec_is_digit(c: char) -> bool {
    '0' <= c && c <= '9'
}

/// The ASCII lower-case counterpart of `c`; other characters are unchanged.
pub open spec fn spec_lower(c: char) -> char {
    if 'A' <= c && c <= 'Z' {
        ((c as u8) + 32) as char
    } else {
        c
    }
}

/// `s`, ASCII lower-cased character by character.
pub open spec fn spec_lower_seq(s: Seq<char>) -> Seq<char> {
    s.map_values(|c: char| spec_lower(c))
}

pub fn is_ws(c: char) -> (r: bool)
    ensures
        r == spec_is_ws(c),
{
    c == ' ' || c == '\t' || c == '\n' || c == '\r'
}

pub fn is_digit(c: char) -> (r: bool)
    ensures
        r == spec_is_digit(c),
{
    '0' <= c && c <= '9'
}

pub fn lower(c: char) -> (r: char)
    ensures
        r == spec_lower(c),
{
    if 'A' <= c && c <= 'Z' {
        ((c as u8) + 32) as char
    } else {
        c
    }
}

/// The characters of `s`, in order.
pub fn str_to_chars(s: &str) -> (r: Vec<char>)
    ensures
        r@ == s@,
{
    let n = s.unicode_len();
    let mut r: Vec<char> = Vec::new();
    let mut i: usize = 0;
    while i < n
        invariant
            n == s@.len(),
            i <= n,
            r@ =~= s@.subrange(0, i as int),
        decreases n - i,
    {
        let c = s.get_char(i);
        r.push(c);
        i += 1;
    }
    proof {
        assert(r@ =~= s@);
    }
    r
}

/// Relies on `String`'s `FromIterator` impl: collecting an iterator of
/// characters yields the string holding exactly those characters in order.
#[verifier::external_body]
pub fn chars_to_string(v: &Vec<char>) -> (r: String)
    ensures
        r@ == v@,
{
    v.iter().collect()
}

/// An owned copy of `s`.
pub fn str_to_string(s: &str) -> (r: String)
    ensures
        r@ == s@,
{
    String::from_str(s)
}

/// Whether two strings hold the same characters.
pub fn str_eq_str(a: &str, b: &str) -> (r: bool)
    ensures
        r == (a@ == b@),
{
    let n = a.unicode_len();
    if n != b.unicode_len() {
        proof {
            assert(a@.len() != b@.len());
        }
        return false;
    }
    let mut i: usize = 0;
    while i < n
        invariant
            n == a@.len(),
            n == b@.len(),
            i <= n,
            forall|j: int| 0 <= j < i ==> a@[j] == b@[j],
        decreases n - i,
    {
        if a.get_char(i) != b.get_char(i) {
            return false;
        }
        i += 1;
    }
    proof {
        assert(a@ =~= b@);
    }
    true
}

/// Whether `s` and `w` hold the same characters.
pub fn eq_str_chars(s: &str, w: &Vec<char>) -> (r: bool)
    ensures
        r == (s@ == w@),
{
    let n = s.unicode_len();
    if n != w.len() {
        proof {
            assert(s@ != w@) by {
                assert(s@.len() != w@.len());
            }
        }
        return false;
    }
    let mut i: usize = 0;
    while i < n
        invariant
            n == s@.len(),
            n == w@.len(),
            i <= n,
            forall|j: int| 0 <= j < i ==> s@[j] == w@[j],
        decreases n - i,
    {
        if s.get_char(i) != w[i] {
            return false;
        }
        i += 1;
    }
    proof {
        assert(s@ =~= w@);
    }
    true
}

/// A copy of `w` with every ASCII upper-case letter lower-cased.
pub fn lower_chars(w: &Vec<char>) -> (r: Vec<char>)
    ensures
        r@ == spec_lower_seq(w@),
{
    let mut r: Vec<char> = Vec::new();
    let mut i: usize = 0;
    while i < w.len()
        invariant
            i <= w@.len(),
            r@ =~= spec_lower_seq(w@).subrange(0, i as int),
        decreases w@.len() - i,
    {
        r.push(lower(w[i]));
        i += 1;
    }
    proof {
        assert(r@ =~= spec_lower_seq(w@));
    }
    r
}

/// Appends the characters of `s` to `v`.
pub fn append_str(v: &mut Vec<char>, s: &str)
    ensures
        final(v)@ == old(v)@ + s@,
{
    let n = s.unicode_len();
    let mut i: usize = 0;
    while i < n
        invariant
            n == s@.len(),
            i <= n,
            v@ =~= old(v)@ + s@.subrange(0, i as int),
        decreases n - i,
    {
        v.push(s.get_char(i));
        i += 1;
    }
    proof {
        assert(old(v)@ + s@.subrange(0, s@.len() as int) =~= old(v)@ + s@);
    }
}

/// Appends the characters of `w` to `v`.
pub fn append_vec(v: &mut Vec<char>, w: &Vec<char>)
    ensures
        final(v)@ == old(v)@ + w@,
{
    let mut i: usize = 0;
    while i < w.len()
        invariant
            i <= w@.len(),
            v@ =~= old(v)@ + w@.subrange(0, i as int),
        decreases w@.len() - i,
    {
        v.push(w[i]);
        i += 1;
    }
    proof {
        assert(old(v)@ + w@.subrange(0, w@.len() as int) =~= old(v)@ + w@);
    }
}

/// `s` with leading and trailing blanks removed.
pub open spec fn spec_trim(s: Seq<char>) -> Seq<char>
    decreases s.len(),
{
    if s.len() == 0 {
        s
    } else if spec_is_ws(s[0]) {
        spec_trim(s.subrange(1, s.len() as int))
    } else if spec_is_ws(s[s.len() - 1]) {
        spec_trim(s.subrange(0, s.len() - 1))
    } else {
        s
    }
}

/// Removes leading and trailing blanks.
pub fn trim_chars(w: &Vec<char>) -> (r: Vec<char>)
    ensures
        r@ == spec_trim(w@),
{
    let mut lo: usize = 0;
    let mut hi: usize = w.len();
    proof {
        assert(w@.subrange(0, w@.len() as int) =~= w@);
    }
    while lo < hi && is_ws(w[lo])
        invariant
            lo <= hi <= w@.len(),
            spec_trim(w@) == spec_trim(w@.subrange(lo as int, hi as int)),
        decreases hi - lo,
    {
        proof {
            let cur = w@.subrange(lo as int, hi as int);
            assert(cur.subrange(1, cur.len() as int) =~= w@.subrange(lo + 1, hi as int));
        }
        lo += 1;
    }
    while lo < hi && is_ws(w[hi - 1])
        invariant
            lo <= hi <= w@.len(),
            spec_trim(w@) == spec_trim(w@.subrange(lo as int, hi as int)),
            lo < hi ==> !spec_is_ws(w@[lo as int]),
        decreases hi - lo,
    {
        proof {
            let cur = w@.subrange(lo as int, hi as int);
            assert(cur.subrange(0, cur.len() - 1) =~= w@.subrange(lo as int, hi - 1));
        }
        hi -= 1;
    }
    let mut r: Vec<char> = Vec::new();
    let mut i: usize = lo;
    while i < hi
        invariant
            lo <= i <= hi <= w@.len(),
            r@ =~= w@.subrange(lo as int, i as int),
        decreases hi - i,
    {
        r.push(w[i]);
        i += 1;
    }
    proof {
        assert(r@ =~= w@.subrange(lo as int, hi as int));
        let cur = w@.subrange(lo as int, hi as int);
        assert(spec_trim(cur) == cur);
    }
    r
}

} // verus!
