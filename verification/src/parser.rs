//! The query surface language: a tokenizer and a recursive-descent parser
//! that walk a search expression into the IR, resolving field names and
//! applying the caller's permissions on the way.

use vstd::prelude::*;

use crate::chars::{spec_is_digit, spec_is_ws, spec_lower_seq};
use crate::comp_op::CompOp;
use crate::dates::Direction;
use crate::db_field::{DbField, FieldG};
use crate::error::SuchError;
use crate::num::spec_digits_end;
use crate::sql_term::TermG;

verus! {

/// One token of the query surface language.
pub enum Tok {
    /// `(`
    LPar,
    /// `)`
    RPar,
    /// `;`, beginning the sort clause.
    Semi,
    /// `,`, separating sort entries.
    Comma,
    /// `-`, separating the ends of a range.
    Dash,
    /// `^`: a prefix anchor before a value, or descending in the sort list.
    Caret,
    /// `$`: a suffix anchor after a value.
    Dollar,
    /// `*`: a wildcard before or after a value.
    Star,
    /// `!` standing alone: negation.
    Bang,
    /// `AND` or `&&`.
    AndOp,
    /// `OR` or `||`.
    OrOp,
    /// `NOT`.
    NotKw,
    /// A comparator such as `=`, `!=`, `>=`.
    Cmp(CompOp),
    /// A bare word: a value, field name, or date.
    Word(Vec<char>),
    /// A quoted value, quotes already stripped.
    Quoted(Vec<char>),
}

/// The ghost image of a token.
pub ghost enum TokG {
    LPar,
    RPar,
    Semi,
    Comma,
    Dash,
    Caret,
    Dollar,
    Star,
    Bang,
    AndOp,
    OrOp,
    NotKw,
    Cmp(CompOp),
    Word(Seq<char>),
    Quoted(Seq<char>),
}

impl View for Tok {
    type V = TokG;

    open spec fn view(&self) -> TokG {
        match self {
            Tok::LPar => TokG::LPar,
            Tok::RPar => TokG::RPar,
            Tok::Semi => TokG::Semi,
            Tok::Comma => TokG::Comma,
            Tok::Dash => TokG::Dash,
            Tok::Caret => TokG::Caret,
            Tok::Dollar => TokG::Dollar,
            Tok::Star => TokG::Star,
            Tok::Bang => TokG::Bang,
            Tok::AndOp => TokG::AndOp,
            Tok::OrOp => TokG::OrOp,
            Tok::NotKw => TokG::NotKw,
            Tok::Cmp(c) => TokG::Cmp(*c),
            Tok::Word(w) => TokG::Word(w@),
            Tok::Quoted(w) => TokG::Quoted(w@),
        }
    }
}

/// The ghost image of a token list.
pub open spec fn toks_view(s: Seq<Tok>) -> Seq<TokG> {
    s.map_values(|t: Tok| t@)
}

/// Characters that can stand inside a bare word: everything that is not a
/// blank and not one of the grammar's delimiters.
pub open spec fn spec_is_word_char(c: char) -> bool {
    !spec_is_ws(c) && c != '(' && c != ')' && c != ';' && c != ',' && c != '^' && c != '$' && c
        != '*' && c != '-' && c != '\'' && c != '"' && c != '=' && c != '<' && c != '>' && c != '!'
        && c != '&' && c != '|'
}

/// The end of the bare word starting at `i`.
pub open spec fn spec_word_end(s: Seq<char>, i: int) -> int
    decreases s.len() - i,
{
    if i < 0 || i >= s.len() || !spec_is_word_char(s[i]) {
        i
    } else {
        spec_word_end(s, i + 1)
    }
}

/// Where an ISO-style date token `dddd-d[d]-d[d]` starting at `i` ends, if
/// one starts there; dashes inside such a token do not separate a range.
pub open spec fn spec_iso_end(s: Seq<char>, i: int) -> Option<int> {
    let a = spec_digits_end(s, i);
    if a == i + 4 && a < s.len() && s[a] == '-' {
        let b = spec_digits_end(s, a + 1);
        if (b == a + 2 || b == a + 3) && b < s.len() && s[b] == '-' {
            let c = spec_digits_end(s, b + 1);
            if c == b + 2 || c == b + 3 {
                Some(c)
            } else {
                None
            }
        } else {
            None
        }
    } else {
        None
    }
}

/// The first position at or after `i` holding the quote character `q`, or
/// the length if there is none.
pub open spec fn spec_quote_end(s: Seq<char>, i: int, q: char) -> int
    decreases s.len() - i,
{
    if i < 0 || i >= s.len() {
        s.len() as int
    } else if s[i] == q {
        i
    } else {
        spec_quote_end(s, i + 1, q)
    }
}

/// What the tokenizer finds at position `i` (not a blank): the token and the
/// position after it, or nothing for a character no token can start with or
/// an unterminated quote.
pub open spec fn spec_next_token(s: Seq<char>, i: int) -> Option<(TokG, int)> {
    let c = s[i];
    if c == '(' {
        Some((TokG::LPar, i + 1))
    } else if c == ')' {
        Some((TokG::RPar, i + 1))
    } else if c == ';' {
        Some((TokG::Semi, i + 1))
    } else if c == ',' {
        Some((TokG::Comma, i + 1))
    } else if c == '^' {
        Some((TokG::Caret, i + 1))
    } else if c == '$' {
        Some((TokG::Dollar, i + 1))
    } else if c == '*' {
        Some((TokG::Star, i + 1))
    } else if c == '-' {
        Some((TokG::Dash, i + 1))
    } else if c == '=' {
        if i + 1 < s.len() && s[i + 1] == '=' {
            Some((TokG::Cmp(CompOp::Equal), i + 2))
        } else if i + 1 < s.len() && s[i + 1] == '!' {
            Some((TokG::Cmp(CompOp::NotEqual), i + 2))
        } else if i + 1 < s.len() && s[i + 1] == '<' {
            Some((TokG::Cmp(CompOp::Lte), i + 2))
        } else if i + 1 < s.len() && s[i + 1] == '>' {
            Some((TokG::Cmp(CompOp::Gte), i + 2))
        } else {
            Some((TokG::Cmp(CompOp::Equal), i + 1))
        }
    } else if c == '!' {
        if i + 1 < s.len() && s[i + 1] == '=' {
            Some((TokG::Cmp(CompOp::NotEqual), i + 2))
        } else {
            Some((TokG::Bang, i + 1))
        }
    } else if c == '>' {
        if i + 1 < s.len() && s[i + 1] == '=' {
            Some((TokG::Cmp(CompOp::Gte), i + 2))
        } else {
            Some((TokG::Cmp(CompOp::Gt), i + 1))
        }
    } else if c == '<' {
        if i + 1 < s.len() && s[i + 1] == '=' {
            Some((TokG::Cmp(CompOp::Lte), i + 2))
        } else {
            Some((TokG::Cmp(CompOp::Lt), i + 1))
        }
    } else if c == '&' {
        if i + 1 < s.len() && s[i + 1] == '&' {
            Some((TokG::AndOp, i + 2))
        } else {
            None
        }
    } else if c == '|' {
        if i + 1 < s.len() && s[i + 1] == '|' {
            Some((TokG::OrOp, i + 2))
        } else {
            None
        }
    } else if c == '\'' || c == '"' {
        let e = spec_quote_end(s, i + 1, c);
        if e < s.len() {
            Some((TokG::Quoted(s.subrange(i + 1, e)), e + 1))
        } else {
            None
        }
    } else {
        let iso = spec_iso_end(s, i);
        if spec_is_digit(c) && iso is Some {
            Some((TokG::Word(s.subrange(i, iso->Some_0)), iso->Some_0))
        } else {
            let w = spec_word_end(s, i);
            let word = s.subrange(i, w);
            if word == "AND"@ {
                Some((TokG::AndOp, w))
            } else if word == "OR"@ {
                Some((TokG::OrOp, w))
            } else if word == "NOT"@ {
                Some((TokG::NotKw, w))
            } else {
                Some((TokG::Word(word), w))
            }
        }
    }
}

/// The token list of the query text from position `i` on: blanks are
/// skipped, and any failing position fails the whole text.
pub open spec fn spec_tokenize_from(s: Seq<char>, i: int) -> Option<Seq<TokG>>
    decreases s.len() - i,
{
    if i < 0 || i >= s.len() {
        Some(Seq::empty())
    } else if spec_is_ws(s[i]) {
        spec_tokenize_from(s, i + 1)
    } else {
        match spec_next_token(s, i) {
            None => None,
            Some((t, k)) => if k <= i || k > s.len() {
                None
            } else {
                match spec_tokenize_from(s, k) {
                    None => None,
                    Some(ts) => Some(seq![t] + ts),
                }
            },
        }
    }
}

/// The token list of the whole query text.
pub open spec fn spec_tokenize(s: Seq<char>) -> Option<Seq<TokG>> {
    spec_tokenize_from(s, 0)
}

proof fn lemma_word_end_bounds(s: Seq<char>, i: int)
    requires
        0 <= i <= s.len(),
    ensures
        i <= spec_word_end(s, i) <= s.len(),
    decreases s.len() - i,
{
    if i < s.len() && spec_is_word_char(s[i]) {
        lemma_word_end_bounds(s, i + 1);
    }
}

fn word_end(v: &Vec<char>, i: usize) -> (r: usize)
    requires
        i <= v@.len(),
    ensures
        r == spec_word_end(v@, i as int),
        i <= r <= v@.len(),
    decreases v@.len() - i,
{
    if i < v.len() && {
        let c = v[i];
        !(crate::chars::is_ws(c) || c == '(' || c == ')' || c == ';' || c == ',' || c == '^' || c
            == '$' || c == '*' || c == '-' || c == '\'' || c == '"' || c == '=' || c == '<' || c
            == '>' || c == '!' || c == '&' || c == '|')
    } {
        word_end(v, i + 1)
    } else {
        i
    }
}

fn quote_end(v: &Vec<char>, i: usize, q: char) -> (r: usize)
    requires
        i <= v@.len(),
    ensures
        r == spec_quote_end(v@, i as int, q),
        i <= r <= v@.len(),
    decreases v@.len() - i,
{
    if i >= v.len() {
        v.len()
    } else if v[i] == q {
        i
    } else {
        quote_end(v, i + 1, q)
    }
}

fn digits_end(v: &Vec<char>, i: usize) -> (r: usize)
    requires
        i <= v@.len(),
    ensures
        r == spec_digits_end(v@, i as int),
        i <= r <= v@.len(),
    decreases v@.len() - i,
{
    if i < v.len() && crate::chars::is_digit(v[i]) {
        digits_end(v, i + 1)
    } else {
        i
    }
}

/// Copies the characters `v[from..to]` into a fresh vector.
fn copy_range(v: &Vec<char>, from: usize, to: usize) -> (r: Vec<char>)
    requires
        from <= to <= v@.len(),
    ensures
        r@ == v@.subrange(from as int, to as int),
{
    let mut r: Vec<char> = Vec::new();
    let mut i: usize = from;
    while i < to
        invariant
            from <= i <= to <= v@.len(),
            r@ =~= v@.subrange(from as int, i as int),
        decreases to - i,
    {
        r.push(v[i]);
        i += 1;
    }
    proof {
        assert(r@ =~= v@.subrange(from as int, to as int));
    }
    r
}

/// Finds where the ISO-style date token starting at `i` would end.
fn iso_end(v: &Vec<char>, i: usize) -> (r: Option<usize>)
    requires
        i <= v@.len(),
    ensures
        r is Some <==> spec_iso_end(v@, i as int) is Some,
        r is Some ==> r->Some_0 as int == spec_iso_end(v@, i as int)->Some_0 && i <= r->Some_0
            <= v@.len(),
{
    let n = v.len();
    let a = digits_end(v, i);
    if a - i == 4 && a < n && v[a] == '-' {
        let b = digits_end(v, a + 1);
        if (b - a == 2 || b - a == 3) && b < n && v[b] == '-' {
            let c = digits_end(v, b + 1);
            if c - b == 2 || c - b == 3 {
                Some(c)
            } else {
                None
            }
        } else {
            None
        }
    } else {
        None
    }
}

/// Reads the token starting at `i`, which must not be a blank.
fn next_token(v: &Vec<char>, i: usize) -> (r: Option<(Tok, usize)>)
    requires
        i < v@.len(),
        !spec_is_ws(v@[i as int]),
    ensures
        r is Some <==> spec_next_token(v@, i as int) is Some,
        r is Some ==> ({
            let (t, k) = r->Some_0;
            (t@, k as int) == spec_next_token(v@, i as int)->Some_0
        }),
        r is Some ==> ({
            let (t, k) = r->Some_0;
            i < k <= v@.len()
        }),
{
    let n = v.len();
    let c = v[i];
    if c == '(' {
        Some((Tok::LPar, i + 1))
    } else if c == ')' {
        Some((Tok::RPar, i + 1))
    } else if c == ';' {
        Some((Tok::Semi, i + 1))
    } else if c == ',' {
        Some((Tok::Comma, i + 1))
    } else if c == '^' {
        Some((Tok::Caret, i + 1))
    } else if c == '$' {
        Some((Tok::Dollar, i + 1))
    } else if c == '*' {
        Some((Tok::Star, i + 1))
    } else if c == '-' {
        Some((Tok::Dash, i + 1))
    } else if c == '=' {
        if i + 1 < n && v[i + 1] == '=' {
            Some((Tok::Cmp(CompOp::Equal), i + 2))
        } else if i + 1 < n && v[i + 1] == '!' {
            Some((Tok::Cmp(CompOp::NotEqual), i + 2))
        } else if i + 1 < n && v[i + 1] == '<' {
            Some((Tok::Cmp(CompOp::Lte), i + 2))
        } else if i + 1 < n && v[i + 1] == '>' {
            Some((Tok::Cmp(CompOp::Gte), i + 2))
        } else {
            Some((Tok::Cmp(CompOp::Equal), i + 1))
        }
    } else if c == '!' {
        if i + 1 < v.len() && v[i + 1] == '=' {
            Some((Tok::Cmp(CompOp::NotEqual), i + 2))
        } else {
            Some((Tok::Bang, i + 1))
        }
    } else if c == '>' {
        if i + 1 < v.len() && v[i + 1] == '=' {
            Some((Tok::Cmp(CompOp::Gte), i + 2))
        } else {
            Some((Tok::Cmp(CompOp::Gt), i + 1))
        }
    } else if c == '<' {
        if i + 1 < v.len() && v[i + 1] == '=' {
            Some((Tok::Cmp(CompOp::Lte), i + 2))
        } else {
            Some((Tok::Cmp(CompOp::Lt), i + 1))
        }
    } else if c == '&' {
        if i + 1 < v.len() && v[i + 1] == '&' {
            Some((Tok::AndOp, i + 2))
        } else {
            None
        }
    } else if c == '|' {
        if i + 1 < v.len() && v[i + 1] == '|' {
            Some((Tok::OrOp, i + 2))
        } else {
            None
        }
    } else if c == '\'' || c == '"' {
        let e = quote_end(v, i + 1, c);
        if e < v.len() {
            Some((Tok::Quoted(copy_range(v, i + 1, e)), e + 1))
        } else {
            None
        }
    } else {
        let iso = iso_end(v, i);
        let is_dig = crate::chars::is_digit(c);
        if is_dig && iso.is_some() {
            let e = match iso {
                Some(e) => e,
                None => i,
            };
            proof {
                assert(e as int == spec_iso_end(v@, i as int)->Some_0);
                assert(spec_is_word_char(v@[i as int]));
            }
            if e <= i {
                proof {
                    assert(false);
                }
                None
            } else {
                Some((Tok::Word(copy_range(v, i, e)), e))
            }
        } else {
            proof {
                assert(spec_is_word_char(v@[i as int]));
                lemma_word_end_bounds(v@, i as int + 1);
                assert(spec_word_end(v@, i as int) == spec_word_end(v@, i as int + 1));
            }
            let w = word_end(v, i);
            let word = copy_range(v, i, w);
            if crate::chars::eq_str_chars("AND", &word) {
                Some((Tok::AndOp, w))
            } else if crate::chars::eq_str_chars("OR", &word) {
                Some((Tok::OrOp, w))
            } else if crate::chars::eq_str_chars("NOT", &word) {
                Some((Tok::NotKw, w))
            } else {
                Some((Tok::Word(word), w))
            }
        }
    }
}

/// Splits the query text into tokens.
pub fn tokenize(v: &Vec<char>) -> (r: Result<Vec<Tok>, SuchError>)
    ensures
        r is Ok <==> spec_tokenize(v@) is Some,
        r is Ok ==> toks_view(r->Ok_0@) == spec_tokenize(v@)->Some_0,
        r is Err ==> r->Err_0 is ParseError,
{
    let mut out: Vec<Tok> = Vec::new();
    let mut i: usize = 0;
    while i < v.len()
        invariant
            i <= v@.len(),
            spec_tokenize(v@) == (match spec_tokenize_from(v@, i as int) {
                None => None::<Seq<TokG>>,
                Some(rest) => Some(toks_view(out@) + rest),
            }),
        decreases v@.len() - i,
    {
        if crate::chars::is_ws(v[i]) {
            i += 1;
        } else {
            match next_token(v, i) {
                None => {
                    proof {
                        assert(spec_tokenize_from(v@, i as int) is None);
                        assert(spec_tokenize(v@) is None);
                    }
                    return Err(SuchError::parse_error_chars(v));
                },
                Some((t, k)) => {
                    proof {
                        let tg = (spec_next_token(v@, i as int)->Some_0).0;
                        let rest_opt = spec_tokenize_from(v@, k as int);
                        assert(spec_tokenize_from(v@, i as int) == (match rest_opt {
                            None => None::<Seq<TokG>>,
                            Some(ts) => Some(seq![tg] + ts),
                        }));
                        if rest_opt is Some {
                            assert(toks_view(out@.push(t)) =~= toks_view(out@).push(t@));
                            assert(toks_view(out@) + (seq![tg] + rest_opt->Some_0)
                                =~= toks_view(out@.push(t)) + rest_opt->Some_0);
                        }
                    }
                    out.push(t);
                    i = k;
                },
            }
        }
    }
    proof {
        assert(spec_tokenize_from(v@, i as int) == Some(Seq::<TokG>::empty()));
        assert(toks_view(out@) + Seq::<TokG>::empty() =~= toks_view(out@));
    }
    Ok(out)
}


/// The ghost image of a schema: the field views in declaration order.
pub open spec fn schema_view(fs: Seq<DbField>) -> Seq<FieldG> {
    fs.map_values(|f: DbField| f@)
}

/// The first field from `i` on whose aliases hold `needle` (already
/// lower-cased).
pub open spec fn spec_choose_from(schema: Seq<FieldG>, i: int, needle: Seq<char>) -> Option<FieldG>
    decreases schema.len() - i,
{
    if i < 0 || i >= schema.len() {
        None
    } else if schema[i].aliases.contains(needle) {
        Some(schema[i])
    } else {
        spec_choose_from(schema, i + 1, needle)
    }
}

/// The field a user-facing name denotes, matched case-insensitively against
/// the aliases, in schema order.
pub open spec fn spec_choose_field(schema: Seq<FieldG>, needle: Seq<char>) -> Option<FieldG> {
    spec_choose_from(schema, 0, spec_lower_seq(needle))
}

/// The fields a term addresses: the named field alone when the name matches
/// an alias, the whole schema otherwise (the bare-term fan-out).
pub open spec fn spec_choose_vec(schema: Seq<FieldG>, needle: Seq<char>) -> Seq<FieldG> {
    match spec_choose_field(schema, needle) {
        Some(f) => seq![f],
        None => schema,
    }
}

/// The IR node one field contributes to a term: `Denied` without the
/// permission; a glob match when anchors or wildcards are present, negated
/// for `!=`; a fuzzy contains-search for bare terms on text fields (and on
/// all fields when `like_in_numerics` is set); a half-open range when an
/// upper value is present; and a plain comparison otherwise.
pub open spec fn spec_resolve_field(
    f: FieldG,
    granted: Set<Seq<char>>,
    like_in_numerics: bool,
    named: bool,
    cmp: CompOp,
    value: Seq<char>,
    like_starting: bool,
    like_ending: bool,
    to_val: Option<Seq<char>>,
) -> TermG {
    if !granted.contains(f.permission) {
        TermG::Denied
    } else if like_ending || like_starting {
        let glob = (if like_starting {
            "*"@
        } else {
            Seq::<char>::empty()
        }) + value + (if like_ending {
            "*"@
        } else {
            Seq::<char>::empty()
        });
        if cmp is NotEqual {
            TermG::Not(Box::new(TermG::Like(f, glob)))
        } else {
            TermG::Like(f, glob)
        }
    } else if !named {
        if f.spec_is_text() || like_in_numerics {
            TermG::Like(f, "*"@ + value + "*"@)
        } else {
            TermG::Value(f, CompOp::Equal, Direction::From, value)
        }
    } else if to_val is Some {
        TermG::And(
            seq![
                TermG::Value(f, CompOp::Gte, Direction::From, value),
                TermG::Value(f, CompOp::Lt, Direction::To, to_val->Some_0),
            ],
        )
    } else if cmp is NotEqual {
        TermG::Not(Box::new(TermG::Value(f, CompOp::Equal, Direction::From, value)))
    } else {
        TermG::Value(f, cmp, Direction::From, value)
    }
}

/// The fan-out of one term: each addressed field contributes a child, in
/// schema order, and the children stand under an `Or`.
pub open spec fn spec_resolve_term(
    schema: Seq<FieldG>,
    granted: Set<Seq<char>>,
    like_in_numerics: bool,
    name: Option<Seq<char>>,
    cmp: CompOp,
    value: Seq<char>,
    like_starting: bool,
    like_ending: bool,
    to_val: Option<Seq<char>>,
) -> TermG {
    let needle = match name {
        Some(n) => n,
        None => Seq::<char>::empty(),
    };
    let fields = spec_choose_vec(schema, needle);
    TermG::Or(
        fields.map_values(
            |f: FieldG|
                spec_resolve_field(
                    f,
                    granted,
                    like_in_numerics,
                    name is Some,
                    cmp,
                    value,
                    like_starting,
                    like_ending,
                    to_val,
                ),
        ),
    )
}

/// How many negations stand at `i`, as a parity, and the position after
/// them.
pub open spec fn spec_bangs(ts: Seq<TokG>, i: int) -> (bool, int)
    decreases ts.len() - i,
{
    if i < 0 || i >= ts.len() || !(ts[i] is Bang || ts[i] is NotKw) {
        (false, i)
    } else {
        let (p, j) = spec_bangs(ts, i + 1);
        (!p, j)
    }
}

/// One term of the grammar: an optional leading anchor, a mandatory word or
/// quoted value, an optional trailing anchor, and an optional `-` upper
/// value; resolved into an IR node at position `i`.
pub open spec fn spec_parse_term(
    ts: Seq<TokG>,
    i: int,
    schema: Seq<FieldG>,
    granted: Set<Seq<char>>,
    like_in_numerics: bool,
    name: Option<Seq<char>>,
    cmp: CompOp,
) -> Option<(TermG, int)>
    decreases ts.len() - i, 0int,
{
    let ls1 = 0 <= i < ts.len() && ts[i] is Star;
    let le1 = 0 <= i < ts.len() && ts[i] is Caret;
    let p1: int = if ls1 || le1 {
        i + 1
    } else {
        i
    };
    if 0 <= p1 < ts.len() && (ts[p1] is Word || ts[p1] is Quoted) {
        let value = match ts[p1] {
            TokG::Word(w) => w,
            TokG::Quoted(q) => q,
            _ => Seq::<char>::empty(),
        };
        let p2 = p1 + 1;
        let ls2 = ls1 || (p2 < ts.len() && ts[p2] is Dollar);
        let le2 = le1 || (p2 < ts.len() && ts[p2] is Star);
        let p3: int = if p2 < ts.len() && (ts[p2] is Dollar || ts[p2] is Star) {
            p2 + 1
        } else {
            p2
        };
        let has_to = p3 + 1 < ts.len() && ts[p3] is Dash && (ts[p3 + 1] is Word || ts[p3
            + 1] is Quoted);
        let to_val = if has_to {
            match ts[p3 + 1] {
                TokG::Word(w) => Some(w),
                TokG::Quoted(q) => Some(q),
                _ => None,
            }
        } else {
            None
        };
        let p4: int = if has_to {
            p3 + 2
        } else {
            p3
        };
        Some(
            (
                spec_resolve_term(
                    schema,
                    granted,
                    like_in_numerics,
                    name,
                    cmp,
                    value,
                    ls2,
                    le2,
                    to_val,
                ),
                p4,
            ),
        )
    } else {
        None
    }
}

/// A qualified term: a field name, a comparator, optional negations, and the
/// term; the sign collected at expression level flows into the comparator.
pub open spec fn spec_parse_field(
    ts: Seq<TokG>,
    i: int,
    schema: Seq<FieldG>,
    granted: Set<Seq<char>>,
    like_in_numerics: bool,
    sign: CompOp,
) -> Option<(TermG, int)>
    decreases ts.len() - i, 1int,
{
    if 0 <= i && i + 1 < ts.len() && ts[i] is Word && ts[i + 1] is Cmp {
        let name = ts[i]->Word_0;
        let op = ts[i + 1]->Cmp_0;
        let (par, j) = spec_bangs(ts, i + 2);
        if j <= i + 1 || j > ts.len() {
            None
        } else {
            let not = (sign is NotEqual) != par;
            spec_parse_term(
                ts,
                j,
                schema,
                granted,
                like_in_numerics,
                Some(name),
                if not {
                    op.spec_negate()
                } else {
                    op
                },
            )
        }
    } else {
        None
    }
}

/// An expression: a run of atoms with optional connectives and negations.
/// The last connective seen decides `AND` or `OR` for the whole run, the
/// default is `AND`, and the sign toggles on every negation and stays in
/// force for the rest of the run.
pub open spec fn spec_parse_expr(
    ts: Seq<TokG>,
    i: int,
    schema: Seq<FieldG>,
    granted: Set<Seq<char>>,
    like_in_numerics: bool,
    acc: Seq<TermG>,
    or: bool,
    sign: CompOp,
) -> Option<(TermG, int)>
    decreases ts.len() - i, 2int,
{
    if i < 0 {
        None
    } else if i >= ts.len() || ts[i] is RPar || ts[i] is Semi {
        Some(
            (
                if or {
                    TermG::Or(acc)
                } else {
                    TermG::And(acc)
                },
                i,
            ),
        )
    } else if ts[i] is AndOp {
        spec_parse_expr(ts, i + 1, schema, granted, like_in_numerics, acc, false, sign)
    } else if ts[i] is OrOp {
        spec_parse_expr(ts, i + 1, schema, granted, like_in_numerics, acc, true, sign)
    } else if ts[i] is Bang || ts[i] is NotKw {
        spec_parse_expr(ts, i + 1, schema, granted, like_in_numerics, acc, or, sign.spec_negate())
    } else if ts[i] is LPar {
        match spec_parse_expr(
            ts,
            i + 1,
            schema,
            granted,
            like_in_numerics,
            Seq::empty(),
            false,
            CompOp::Equal,
        ) {
            None => None,
            Some((sub, j)) => if j <= i || j >= ts.len() || !(ts[j] is RPar) {
                None
            } else {
                spec_parse_expr(
                    ts,
                    j + 1,
                    schema,
                    granted,
                    like_in_numerics,
                    acc.push(sub),
                    or,
                    sign,
                )
            },
        }
    } else if ts[i] is Word && i + 1 < ts.len() && ts[i + 1] is Cmp {
        match spec_parse_field(ts, i, schema, granted, like_in_numerics, sign) {
            None => None,
            Some((t, j)) => if j <= i {
                None
            } else {
                spec_parse_expr(ts, j, schema, granted, like_in_numerics, acc.push(t), or, sign)
            },
        }
    } else {
        match spec_parse_term(ts, i, schema, granted, like_in_numerics, None, sign) {
            None => None,
            Some((t, j)) => if j <= i {
                None
            } else {
                spec_parse_expr(ts, j, schema, granted, like_in_numerics, acc.push(t), or, sign)
            },
        }
    }
}

/// The sort clause: `^` marks the next recognized field as descending,
/// unknown names and other tokens are passed over.
pub open spec fn spec_parse_sort(
    ts: Seq<TokG>,
    i: int,
    schema: Seq<FieldG>,
    desc: bool,
) -> Seq<crate::db_field::SortG>
    decreases ts.len() - i,
{
    if i < 0 || i >= ts.len() {
        Seq::empty()
    } else if ts[i] is Caret {
        spec_parse_sort(ts, i + 1, schema, true)
    } else if ts[i] is Word {
        match spec_choose_field(schema, ts[i]->Word_0) {
            Some(f) => seq![crate::db_field::SortG { desc, field: f }] + spec_parse_sort(
                ts,
                i + 1,
                schema,
                false,
            ),
            None => spec_parse_sort(ts, i + 1, schema, desc),
        }
    } else {
        spec_parse_sort(ts, i + 1, schema, desc)
    }
}

/// A whole query: an optional expression, then an optional `;`-led sort
/// clause; leftover tokens fail the parse.
pub open spec fn spec_parse_query(
    ts: Seq<TokG>,
    schema: Seq<FieldG>,
    granted: Set<Seq<char>>,
    like_in_numerics: bool,
) -> Option<(TermG, Seq<crate::db_field::SortG>)> {
    let empty_term = TermG::And(Seq::empty());
    if ts.len() == 0 {
        Some((empty_term, Seq::empty()))
    } else if ts[0] is Semi {
        Some((empty_term, spec_parse_sort(ts, 1, schema, false)))
    } else {
        match spec_parse_expr(
            ts,
            0,
            schema,
            granted,
            like_in_numerics,
            Seq::empty(),
            false,
            CompOp::Equal,
        ) {
            None => None,
            Some((t, j)) => if j >= ts.len() {
                Some((t, Seq::empty()))
            } else if ts[j] is Semi {
                Some((t, spec_parse_sort(ts, j + 1, schema, false)))
            } else {
                None
            },
        }
    }
}

/// What a successful parse of the query text yields: the IR of the
/// expression and the sort list, both determined by the schema, the caller's
/// permissions, and the options.
pub open spec fn spec_query(
    q: Seq<char>,
    schema: Seq<FieldG>,
    granted: Set<Seq<char>>,
    like_in_numerics: bool,
) -> Option<(TermG, Seq<crate::db_field::SortG>)> {
    match spec_tokenize(q) {
        None => None,
        Some(ts) => spec_parse_query(ts, schema, granted, like_in_numerics),
    }
}


} // verus!
