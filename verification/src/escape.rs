//! The SQL-safety transform applied to every user value before it reaches a
//! predicate: glob wildcards become SQL wildcards, literal SQL wildcards are
//! back-slash escaped, and single quotes are doubled.

use vstd::prelude::*;

verus! {

/// What a single user character contributes to the escaped value:
/// `?` becomes `_`, `*` becomes `%`, `'` is doubled, literal `_` and `%` are
/// escaped with a backslash, and everything else passes through.
pub open spec fn spec_esc_char(c: char) -> Seq<char> {
    if c == '?' {
        seq!['_']
    } else if c == '*' {
        seq!['%']
    } else if c == '\'' {
        seq!['\'', '\'']
    } else if c == '_' {
        seq!['\\', '_']
    } else if c == '%' {
        seq!['\\', '%']
    } else {
        seq![c]
    }
}

/// The whole escaped value: the concatenation of the contributions of each
/// character of `s`, in order.
pub open spec fn spec_escape(s: Seq<char>) -> Seq<char>
    decreases s.len(),
{
    if s.len() == 0 {
        Seq::empty()
    } else {
        spec_esc_char(s[0]) + spec_escape(s.subrange(1, s.len() as int))
    }
}

/// Escaping distributes over concatenation.
pub proof fn lemma_escape_concat(a: Seq<char>, b: Seq<char>)
    ensures
        spec_escape(a + b) == spec_escape(a) + spec_escape(b),
    decreases a.len(),
{
    if a.len() == 0 {
        assert(a + b =~= b);
        assert(spec_escape(a) + spec_escape(b) =~= spec_escape(b));
    } else {
        let t = a.subrange(1, a.len() as int);
        lemma_escape_concat(t, b);
        assert((a + b).subrange(1, (a + b).len() as int) =~= t + b);
        assert(spec_escape(a + b) == spec_esc_char(a[0]) + spec_escape(t + b));
        assert(spec_esc_char(a[0]) + (spec_escape(t) + spec_escape(b)) =~= (spec_esc_char(a[0])
            + spec_escape(t)) + spec_escape(b));
    }
}

/// Escaping one character alone yields that character's contribution.
pub proof fn lemma_escape_singleton(c: char)
    ensures
        spec_escape(seq![c]) == spec_esc_char(c),
{
    let s = seq![c];
    assert(s.subrange(1, 1) =~= Seq::<char>::empty());
    assert(spec_esc_char(c) + spec_escape(s.subrange(1, 1)) =~= spec_esc_char(c));
}

/// Applies the escape transform to a user value.
pub fn sql_escape(v: &Vec<char>) -> (r: Vec<char>)
    ensures
        r@ == spec_escape(v@),
{
    let mut r: Vec<char> = Vec::new();
    let mut i: usize = 0;
    proof {
        assert(v@.subrange(0, 0) =~= Seq::<char>::empty());
    }
    while i < v.len()
        invariant
            i <= v@.len(),
            r@ == spec_escape(v@.subrange(0, i as int)),
        decreases v@.len() - i,
    {
        let c = v[i];
        proof {
            let pre = v@.subrange(0, i as int);
            lemma_escape_concat(pre, seq![c]);
            lemma_escape_singleton(c);
            assert(pre + seq![c] =~= v@.subrange(0, i + 1));
        }
        if c == '?' {
            r.push('_');
        } else if c == '*' {
            r.push('%');
        } else if c == '\'' {
            r.push('\'');
            r.push('\'');
        } else if c == '_' {
            r.push('\\');
            r.push('_');
        } else if c == '%' {
            r.push('\\');
            r.push('%');
        } else {
            r.push(c);
        }
        proof {
            assert(r@ =~= spec_escape(v@.subrange(0, i as int)) + spec_esc_char(c));
        }
        i += 1;
    }
    proof {
        assert(v@.subrange(0, v@.len() as int) =~= v@);
    }
    r
}

/// Every single quote in `s` is immediately paired with a second one: the
/// scan consumes quotes strictly in adjacent pairs.
pub open spec fn quote_pairs_ok(s: Seq<char>) -> bool
    decreases s.len(),
{
    if s.len() == 0 {
        true
    } else if s[0] != '\'' {
        quote_pairs_ok(s.subrange(1, s.len() as int))
    } else {
        s.len() >= 2 && s[1] == '\'' && quote_pairs_ok(s.subrange(2, s.len() as int))
    }
}

/// Pairedness of quotes survives concatenation.
pub proof fn lemma_quote_pairs_concat(a: Seq<char>, b: Seq<char>)
    requires
        quote_pairs_ok(a),
        quote_pairs_ok(b),
    ensures
        quote_pairs_ok(a + b),
    decreases a.len(),
{
    if a.len() == 0 {
        assert(a + b =~= b);
    } else if a[0] != '\'' {
        let t = a.subrange(1, a.len() as int);
        lemma_quote_pairs_concat(t, b);
        assert((a + b).subrange(1, (a + b).len() as int) =~= t + b);
    } else {
        let t = a.subrange(2, a.len() as int);
        lemma_quote_pairs_concat(t, b);
        assert((a + b).subrange(2, (a + b).len() as int) =~= t + b);
    }
}

/// The contribution of any one character is quote-paired.
pub proof fn lemma_esc_char_quote_pairs(c: char)
    ensures
        quote_pairs_ok(spec_esc_char(c)),
{
    let e = spec_esc_char(c);
    if c == '\'' {
        assert(e.len() == 2 && e[0] == '\'' && e[1] == '\'');
        let t = e.subrange(2, e.len() as int);
        assert(t.len() == 0);
        assert(quote_pairs_ok(t));
        assert(quote_pairs_ok(e));
    } else if c == '_' || c == '%' {
        assert(e.len() == 2 && e[0] == '\\' && e[1] == c);
        let t = e.subrange(1, e.len() as int);
        assert(t.len() == 1 && t[0] == c);
        let t2 = t.subrange(1, t.len() as int);
        assert(t2.len() == 0);
        assert(quote_pairs_ok(t2));
        assert(quote_pairs_ok(t));
        assert(quote_pairs_ok(e));
    } else {
        assert(e.len() == 1 && e[0] != '\'');
        let t = e.subrange(1, e.len() as int);
        assert(t.len() == 0);
        assert(quote_pairs_ok(t));
        assert(quote_pairs_ok(e));
    }
}

/// The escape transform leaves every quote adjacent-paired: this is the
/// doubling of `'` that keeps emitted literals well-formed.
pub proof fn lemma_escape_quote_pairs(s: Seq<char>)
    ensures
        quote_pairs_ok(spec_escape(s)),
    decreases s.len(),
{
    if s.len() == 0 {
    } else {
        let t = s.subrange(1, s.len() as int);
        lemma_escape_quote_pairs(t);
        lemma_esc_char_quote_pairs(s[0]);
        lemma_quote_pairs_concat(spec_esc_char(s[0]), spec_escape(t));
    }
}

/// No character of `s` is a single quote.
pub open spec fn no_quote(s: Seq<char>) -> bool {
    forall|i: int| 0 <= i < s.len() ==> s[i] != '\''
}

/// Escaping a value that holds no quote produces no quote.
pub proof fn lemma_escape_no_quote(s: Seq<char>)
    requires
        no_quote(s),
    ensures
        no_quote(spec_escape(s)),
    decreases s.len(),
{
    if s.len() == 0 {
    } else {
        let t = s.subrange(1, s.len() as int);
        lemma_escape_no_quote(t);
        let e = spec_esc_char(s[0]);
        assert(no_quote(e));
        assert forall|i: int| 0 <= i < spec_escape(s).len() implies spec_escape(s)[i]
            != '\'' by {
            if i < e.len() {
                assert(spec_escape(s)[i] == e[i]);
            } else {
                assert(spec_escape(s)[i] == spec_escape(t)[i - e.len()]);
            }
        }
    }
}

/// Every SQL wildcard (`%` or `_`) in `s` stands right after a backslash,
/// as the tail of an escaped pair `\%` or `\_`.
pub open spec fn wildcards_escaped(s: Seq<char>) -> bool
    decreases s.len(),
{
    if s.len() == 0 {
        true
    } else if s[0] == '\\' && s.len() >= 2 && (s[1] == '%' || s[1] == '_') {
        wildcards_escaped(s.subrange(2, s.len() as int))
    } else if s[0] == '%' || s[0] == '_' {
        false
    } else {
        wildcards_escaped(s.subrange(1, s.len() as int))
    }
}

/// Wildcard discipline survives concatenation.
pub proof fn lemma_wildcards_escaped_concat(a: Seq<char>, b: Seq<char>)
    requires
        wildcards_escaped(a),
        wildcards_escaped(b),
    ensures
        wildcards_escaped(a + b),
    decreases a.len(),
{
    if a.len() == 0 {
        assert(a + b =~= b);
    } else if a[0] == '\\' && a.len() >= 2 && (a[1] == '%' || a[1] == '_') {
        let t = a.subrange(2, a.len() as int);
        lemma_wildcards_escaped_concat(t, b);
        assert((a + b).subrange(2, (a + b).len() as int) =~= t + b);
    } else {
        let t = a.subrange(1, a.len() as int);
        lemma_wildcards_escaped_concat(t, b);
        assert((a + b).subrange(1, (a + b).len() as int) =~= t + b);
        if a.len() == 1 && a[0] == '\\' && b.len() >= 1 && (b[0] == '%' || b[0] == '_') {
            assert((a + b).subrange(2, (a + b).len() as int) =~= b.subrange(1, b.len() as int));
        }
    }
}

/// The contribution of any character other than `*` and `?` keeps SQL
/// wildcards escaped.
pub proof fn lemma_esc_char_wildcards(c: char)
    requires
        c != '*',
        c != '?',
    ensures
        wildcards_escaped(spec_esc_char(c)),
{
    let e = spec_esc_char(c);
    if c == '%' || c == '_' {
        assert(e.len() == 2 && e[0] == '\\' && (e[1] == '%' || e[1] == '_'));
        let t = e.subrange(2, e.len() as int);
        assert(t.len() == 0);
        assert(wildcards_escaped(t));
        assert(wildcards_escaped(e));
    } else if c == '\'' {
        assert(e.len() == 2 && e[0] == '\'' && e[1] == '\'');
        let t = e.subrange(1, e.len() as int);
        assert(t.len() == 1 && t[0] == '\'');
        let t2 = t.subrange(1, t.len() as int);
        assert(t2.len() == 0);
        assert(wildcards_escaped(t2));
        assert(wildcards_escaped(t));
        assert(wildcards_escaped(e));
    } else {
        assert(e.len() == 1 && e[0] == c);
        let t = e.subrange(1, e.len() as int);
        assert(t.len() == 0);
        assert(wildcards_escaped(t));
        assert(wildcards_escaped(e));
    }
}

/// For user input free of glob wildcards (`*`, `?`), every SQL wildcard in
/// the escaped value is an escaped literal: `%` and `_` the user typed come
/// out as `\%` and `\_`.
pub proof fn lemma_escape_literal_wildcards(s: Seq<char>)
    requires
        forall|i: int| 0 <= i < s.len() ==> s[i] != '*' && s[i] != '?',
    ensures
        wildcards_escaped(spec_escape(s)),
    decreases s.len(),
{
    if s.len() == 0 {
    } else {
        let t = s.subrange(1, s.len() as int);
        lemma_escape_literal_wildcards(t);
        lemma_esc_char_wildcards(s[0]);
        lemma_wildcards_escaped_concat(spec_esc_char(s[0]), spec_escape(t));
    }
}

/// For user input free of literal `%` and `_`, the escaped value holds no
/// backslash: the only wildcards that appear are the unescaped translations
/// of the user's `*` and `?`.
pub proof fn lemma_escape_no_backslash(s: Seq<char>)
    requires
        forall|i: int| 0 <= i < s.len() ==> s[i] != '%' && s[i] != '_' && s[i] != '\\',
    ensures
        forall|i: int| 0 <= i < spec_escape(s).len() ==> spec_escape(s)[i] != '\\',
    decreases s.len(),
{
    if s.len() == 0 {
    } else {
        let t = s.subrange(1, s.len() as int);
        lemma_escape_no_backslash(t);
        let e = spec_esc_char(s[0]);
        assert forall|i: int| 0 <= i < spec_escape(s).len() implies spec_escape(s)[i]
            != '\\' by {
            if i < e.len() {
                assert(spec_escape(s)[i] == e[i]);
            } else {
                assert(spec_escape(s)[i] == spec_escape(t)[i - e.len()]);
            }
        }
    }
}

} // verus!
