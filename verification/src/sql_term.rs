//! The intermediate representation: a boolean tree of typed predicates, and
//! its two renderings — the SQL fragment and a human-readable echo of the
//! query.

use vstd::prelude::*;

use crate::comp_op::CompOp;
use crate::dates::{valid_date, Date, Direction};
use crate::db_field::{spec_join, DbField, FieldG};
use crate::error::{ErrKind, SuchError};

verus! {

/// The ghost image of an IR node.
pub ghost enum TermG {
    /// All children must hold.
    And(Seq<TermG>),
    /// Some child must hold.
    Or(Seq<TermG>),
    /// The child must not hold.
    Not(Box<TermG>),
    /// A typed comparison of one column against a raw value.
    Value(FieldG, CompOp, Direction, Seq<char>),
    /// A glob match of one column, wildcards still in user syntax.
    Like(FieldG, Seq<char>),
    /// A branch the caller may not read; dropped during emission.
    Denied,
}

/// A node of the boolean predicate tree built from a query.
#[allow(clippy::upper_case_acronyms)]
#[derive(Debug)]
pub enum SQLTerm {
    AND(Vec<SQLTerm>),
    OR(Vec<SQLTerm>),
    NOT(Box<SQLTerm>),
    VALUE(DbField, CompOp, Direction, String),
    LIKE(DbField, String),
    DENIED,
}

/// The ghost image of a list of IR nodes.
pub open spec fn terms_view(s: Seq<SQLTerm>) -> Seq<TermG>
    decreases s,
{
    if s.len() == 0 {
        Seq::empty()
    } else {
        seq![s[0]@] + terms_view(s.subrange(1, s.len() as int))
    }
}

pub proof fn lemma_terms_view_len(s: Seq<SQLTerm>)
    ensures
        terms_view(s).len() == s.len(),
    decreases s.len(),
{
    if s.len() > 0 {
        let t = s.subrange(1, s.len() as int);
        lemma_terms_view_len(t);
        assert(terms_view(s) == seq![s[0]@] + terms_view(t));
    }
}

pub proof fn lemma_terms_view_index(s: Seq<SQLTerm>, i: int)
    requires
        0 <= i < s.len(),
    ensures
        terms_view(s)[i] == s[i]@,
    decreases s.len(),
{
    lemma_terms_view_len(s);
    let t = s.subrange(1, s.len() as int);
    assert(terms_view(s) == seq![s[0]@] + terms_view(t));
    if i > 0 {
        lemma_terms_view_index(t, i - 1);
    }
}

impl View for SQLTerm {
    type V = TermG;

    open spec fn view(&self) -> TermG
        decreases self,
    {
        match self {
            SQLTerm::AND(v) => TermG::And(terms_view(v@)),
            SQLTerm::OR(v) => TermG::Or(terms_view(v@)),
            SQLTerm::NOT(t) => TermG::Not(Box::new((**t)@)),
            SQLTerm::VALUE(f, eq, d, val) => TermG::Value(f@, *eq, *d, val@),
            SQLTerm::LIKE(f, val) => TermG::Like(f@, val@),
            SQLTerm::DENIED => TermG::Denied,
        }
    }
}

/// The textual rendering styles for echoing a query back to users.
#[derive(Debug, PartialEq, Eq, Clone, Copy, Structural)]
pub enum Style {
    Compact,
    Pretty,
    Html,
}

/// The two boolean connectives, with their SQL and textual spellings.
enum Combinator {
    And,
    Or,
}

impl Combinator {
    /// The SQL separator of this connective.
    fn to_sql(&self) -> (r: &'static str)
        ensures
            self is And ==> r@ == " AND "@,
            self is Or ==> r@ == " OR "@,
    {
        match self {
            Combinator::And => " AND ",
            Combinator::Or => " OR ",
        }
    }

    /// The separator of this connective in the given style.
    fn to_text(&self, style: Style) -> (r: &'static str)
        ensures
            r@ == spec_comb_text(*self is Or, style),
    {
        match style {
            Style::Compact => self.to_compact(),
            Style::Pretty => self.to_pretty(),
            Style::Html => self.to_html(),
        }
    }

    /// The compact spelling: `&&` and `||`.
    fn to_compact(&self) -> (r: &'static str)
        ensures
            self is And ==> r@ == "&&"@,
            self is Or ==> r@ == "||"@,
    {
        match self {
            Combinator::And => "&&",
            Combinator::Or => "||",
        }
    }

    /// The HTML spelling: styled spans.
    fn to_html(&self) -> (r: &'static str)
        ensures
            self is And ==> r@ == "<span class=\"syntax_combinator syntax_c_and\">&amp;&amp;</span>"@,
            self is Or ==> r@ == "<span class=\"syntax_combinator syntax_c_or\">||</span>"@,
    {
        match self {
            Combinator::And => "<span class=\"syntax_combinator syntax_c_and\">&amp;&amp;</span>",
            Combinator::Or => "<span class=\"syntax_combinator syntax_c_or\">||</span>",
        }
    }

    /// The pretty spelling: spaced `&&` and `||`.
    fn to_pretty(&self) -> (r: &'static str)
        ensures
            self is And ==> r@ == " && "@,
            self is Or ==> r@ == " || "@,
    {
        match self {
            Combinator::And => " && ",
            Combinator::Or => " || ",
        }
    }
}

/// The separator the given style uses for the connective (`or` false means
/// `AND`).
pub open spec fn spec_comb_text(or: bool, style: Style) -> Seq<char> {
    match style {
        Style::Compact => if or {
            "||"@
        } else {
            "&&"@
        },
        Style::Pretty => if or {
            " || "@
        } else {
            " && "@
        },
        Style::Html => if or {
            "<span class=\"syntax_combinator syntax_c_or\">||</span>"@
        } else {
            "<span class=\"syntax_combinator syntax_c_and\">&amp;&amp;</span>"@
        },
    }
}

/// The SQL emission of one IR node: connectives swallow failing children and
/// need at least one surviving child, a double negation cancels, a `VALUE`
/// holding a wildcard is re-routed through `LIKE`, and a `DENIED` leaf fails
/// so that its parent drops it.
pub open spec fn spec_emit(t: TermG, today: Date) -> Result<Seq<char>, ErrKind>
    decreases t, 2int,
{
    match t {
        TermG::Or(cs) => spec_emit_list(cs, " OR "@, today),
        TermG::And(cs) => spec_emit_list(cs, " AND "@, today),
        TermG::Not(inner) => match *inner {
            TermG::Not(x) => spec_emit(*x, today),
            _ => match spec_emit(*inner, today) {
                Ok(s) => Ok("NOT "@ + s),
                Err(e) => Err(e),
            },
        },
        TermG::Value(f, eq, d, v) => if v.contains('*') {
            f.spec_try_like(v)
        } else {
            f.spec_try_eq(eq, d, v, today)
        },
        TermG::Like(f, v) => f.spec_try_like(v),
        TermG::Denied => Err(ErrKind::Denied),
    }
}

/// The successful child emissions, in order.
pub open spec fn spec_emit_oks(cs: Seq<TermG>, today: Date) -> Seq<Seq<char>>
    decreases cs, 0int,
{
    if cs.len() == 0 {
        Seq::empty()
    } else {
        (match spec_emit(cs[0], today) {
            Ok(s) => seq![s],
            Err(_) => Seq::empty(),
        }) + spec_emit_oks(cs.subrange(1, cs.len() as int), today)
    }
}

/// A connective's emission: an empty survivor list is an error, a single
/// survivor stands alone, several are parenthesized and joined.
pub open spec fn spec_emit_list(cs: Seq<TermG>, sep: Seq<char>, today: Date) -> Result<
    Seq<char>,
    ErrKind,
>
    decreases cs, 1int,
{
    let oks = spec_emit_oks(cs, today);
    if oks.len() == 0 {
        Err(ErrKind::Parse)
    } else if oks.len() == 1 {
        Ok(oks[0])
    } else {
        Ok("( "@ + spec_join(oks, sep) + " )"@)
    }
}

/// Appending one more child extends the survivor list by its emission, when
/// that succeeds.
pub proof fn lemma_emit_oks_push(cs: Seq<TermG>, x: TermG, today: Date)
    ensures
        spec_emit_oks(cs.push(x), today) == spec_emit_oks(cs, today) + (match spec_emit(
            x,
            today,
        ) {
            Ok(s) => seq![s],
            Err(_) => Seq::<Seq<char>>::empty(),
        }),
    decreases cs.len(),
{
    let p = cs.push(x);
    if cs.len() == 0 {
        assert(p.len() == 1);
        assert(p[0] == x);
        assert(p.subrange(1, 1) =~= Seq::<TermG>::empty());
        assert(spec_emit_oks(p.subrange(1, 1), today) =~= Seq::<Seq<char>>::empty());
        match spec_emit(x, today) {
            Ok(s) => {
                assert(spec_emit_oks(p, today) =~= seq![s]);
                assert(spec_emit_oks(cs, today) + seq![s] =~= seq![s]);
            },
            Err(_) => {
                assert(spec_emit_oks(p, today) =~= Seq::<Seq<char>>::empty());
                assert(spec_emit_oks(cs, today) + Seq::<Seq<char>>::empty()
                    =~= Seq::<Seq<char>>::empty());
            },
        }
    } else {
        let t = cs.subrange(1, cs.len() as int);
        lemma_emit_oks_push(t, x, today);
        assert(p.subrange(1, p.len() as int) =~= t.push(x));
        assert(p[0] == cs[0]);
        let head = match spec_emit(cs[0], today) {
            Ok(s) => seq![s],
            Err(_) => Seq::<Seq<char>>::empty(),
        };
        let tailx = match spec_emit(x, today) {
            Ok(s) => seq![s],
            Err(_) => Seq::<Seq<char>>::empty(),
        };
        assert(head + (spec_emit_oks(t, today) + tailx) =~= (head + spec_emit_oks(t, today))
            + tailx);
    }
}

impl SQLTerm {
    /// Emits this term as SQL against today's date from the clock.
    pub fn to_sql(&self) -> (r: Result<String, SuchError>)
        ensures
            exists|td: Date| valid_date(td) && emit_matches(self@, td, r),
    {
        let today = crate::dates::today();
        let r = self.to_sql_at(&today);
        proof {
            assert(valid_date(today) && emit_matches(self@, today, r));
        }
        r
    }

    /// Emits this term as SQL, resolving date tokens against `today`.
    pub fn to_sql_at(&self, today: &Date) -> (r: Result<String, SuchError>)
        requires
            valid_date(*today),
        ensures
            emit_matches(self@, *today, r),
    {
        match self.to_sql_chars(today) {
            Ok(v) => Ok(crate::chars::chars_to_string(&v)),
            Err(e) => Err(e),
        }
    }

    /// Emits this term as characters; the recursive core of SQL emission.
    fn to_sql_chars(&self, today: &Date) -> (r: Result<Vec<char>, SuchError>)
        requires
            valid_date(*today),
        ensures
            r is Ok <==> spec_emit(self@, *today) is Ok,
            r is Ok ==> r->Ok_0@ == spec_emit(self@, *today)->Ok_0,
            r is Err ==> r->Err_0.kind() == spec_emit(self@, *today)->Err_0,
        decreases self, 1int,
    {
        match self {
            SQLTerm::OR(v) => {
                let r = explode_sql_chars(v, Combinator::Or, today);
                proof {
                    assert(self@ == TermG::Or(terms_view(v@)));
                    assert(spec_emit(self@, *today) == spec_emit_list(terms_view(v@), " OR "@, *today));
                }
                r
            },
            SQLTerm::AND(v) => {
                let r = explode_sql_chars(v, Combinator::And, today);
                proof {
                    assert(self@ == TermG::And(terms_view(v@)));
                    assert(spec_emit(self@, *today) == spec_emit_list(terms_view(v@), " AND "@, *today));
                }
                r
            },
            SQLTerm::NOT(val) => {
                match &**val {
                    SQLTerm::NOT(inner) => {
                        let r = (**inner).to_sql_chars(today);
                        proof {
                            assert((**val)@ == TermG::Not(Box::new((**inner)@)));
                            assert(self@ == TermG::Not(Box::new((**val)@)));
                            assert(spec_emit(self@, *today) == spec_emit((**inner)@, *today));
                        }
                        r
                    },
                    _ => {
                        proof {
                            assert(self@ == TermG::Not(Box::new((**val)@)));
                            assert(!((**val)@ is Not));
                        }
                        match (**val).to_sql_chars(today) {
                            Ok(s) => {
                                let mut out: Vec<char> = Vec::new();
                                crate::chars::append_str(&mut out, "NOT ");
                                crate::chars::append_vec(&mut out, &s);
                                proof {
                                    assert(Seq::<char>::empty() + "NOT "@ + s@ =~= "NOT "@ + s@);
                                }
                                Ok(out)
                            },
                            Err(e) => Err(e),
                        }
                    },
                }
            },
            SQLTerm::VALUE(f, eq, d, v) => {
                let cs = crate::chars::str_to_chars(v.as_str());
                proof {
                    assert(self@ == TermG::Value(f@, *eq, *d, v@));
                }
                if contains_star(&cs) {
                    let r = f.try_sql_like_chars(&cs);
                    proof {
                        assert(spec_emit(self@, *today) == f@.spec_try_like(v@));
                    }
                    r
                } else {
                    let r = f.try_sql_eq_chars(*eq, &cs, *d, today);
                    proof {
                        assert(spec_emit(self@, *today) == f@.spec_try_eq(*eq, *d, v@, *today));
                    }
                    r
                }
            },
            SQLTerm::LIKE(f, v) => {
                let cs = crate::chars::str_to_chars(v.as_str());
                f.try_sql_like_chars(&cs)
            },
            SQLTerm::DENIED => Err(SuchError::Denied),
        }
    }
}

/// Whether the result `r` is exactly what the specification-level emission of
/// `t` against `today` produces.
pub open spec fn emit_matches(t: TermG, today: Date, r: Result<String, SuchError>) -> bool {
    &&& (r is Ok <==> spec_emit(t, today) is Ok)
    &&& (r is Ok ==> r->Ok_0@ == spec_emit(t, today)->Ok_0)
    &&& (r is Err ==> r->Err_0.kind() == spec_emit(t, today)->Err_0)
}

/// Whether `v` holds a `*`, the wildcard that re-routes a comparison through
/// `LIKE`.
fn contains_star(v: &Vec<char>) -> (r: bool)
    ensures
        r == v@.contains('*'),
{
    let mut i: usize = 0;
    while i < v.len()
        invariant
            i <= v@.len(),
            forall|j: int| 0 <= j < i ==> v@[j] != '*',
        decreases v@.len() - i,
    {
        if v[i] == '*' {
            return true;
        }
        i += 1;
    }
    proof {
        if v@.contains('*') {
            let k = choose|k: int| 0 <= k < v@.len() && v@[k] == '*';
        }
    }
    false
}

/// Emits the children of a connective, dropping the ones that fail; an
/// error only if none survive.
fn explode_sql_chars(v: &Vec<SQLTerm>, comb: Combinator, today: &Date) -> (r: Result<
    Vec<char>,
    SuchError,
>)
    requires
        valid_date(*today),
    ensures
        ({
            let sep: Seq<char> = if comb is Or {
                " OR "@
            } else {
                " AND "@
            };
            &&& (r is Ok <==> spec_emit_list(terms_view(v@), sep, *today) is Ok)
            &&& (r is Ok ==> r->Ok_0@ == spec_emit_list(terms_view(v@), sep, *today)->Ok_0)
            &&& (r is Err ==> r->Err_0.kind() == spec_emit_list(terms_view(v@), sep, *today)->Err_0)
        }),
    decreases v@, 0int,
{
    let ghost sep: Seq<char> = if comb is Or {
        " OR "@
    } else {
        " AND "@
    };
    let mut parts: Vec<Vec<char>> = Vec::new();
    let mut i: usize = 0;
    proof {
        lemma_terms_view_len(v@);
        assert(v@.subrange(0, 0) =~= Seq::<SQLTerm>::empty());
        assert(terms_view(v@.subrange(0, 0)) =~= Seq::<TermG>::empty());
        assert(parts@.map_values(|p: Vec<char>| p@) =~= spec_emit_oks(
            terms_view(v@.subrange(0, 0)),
            *today,
        ));
    }
    while i < v.len()
        invariant
            valid_date(*today),
            i <= v@.len(),
            parts@.map_values(|p: Vec<char>| p@) == spec_emit_oks(
                terms_view(v@.subrange(0, i as int)),
                *today,
            ),
        decreases v@.len() - i,
    {
        let child = &v[i];
        let one = child.to_sql_chars(today);
        proof {
            let pre = terms_view(v@.subrange(0, i as int));
            lemma_terms_view_push(v@.subrange(0, i as int), v@[i as int]);
            assert(v@.subrange(0, i as int).push(v@[i as int]) =~= v@.subrange(0, i + 1));
            lemma_emit_oks_push(pre, v@[i as int]@, *today);
        }
        match one {
            Ok(s) => {
                parts.push(s);
                proof {
                    assert(parts@.map_values(|p: Vec<char>| p@) =~= spec_emit_oks(
                        terms_view(v@.subrange(0, i + 1)),
                        *today,
                    ));
                }
            },
            Err(_) => {
                proof {
                    assert(parts@.map_values(|p: Vec<char>| p@) =~= spec_emit_oks(
                        terms_view(v@.subrange(0, i + 1)),
                        *today,
                    ));
                }
            },
        }
        i += 1;
    }
    proof {
        assert(v@.subrange(0, v@.len() as int) =~= v@);
    }
    let ghost oks = spec_emit_oks(terms_view(v@), *today);
    if parts.len() == 0 {
        Err(SuchError::ParseError(crate::chars::str_to_string("Empty SQLTerm!")))
    } else if parts.len() == 1 {
        let mut out: Vec<char> = Vec::new();
        crate::chars::append_vec(&mut out, &parts[0]);
        proof {
            assert(oks[0] == parts@.map_values(|p: Vec<char>| p@)[0]);
            assert(Seq::<char>::empty() + parts@[0]@ =~= parts@[0]@);
        }
        Ok(out)
    } else {
        let sep_str = comb.to_sql();
        let mut out: Vec<char> = Vec::new();
        crate::chars::append_str(&mut out, "( ");
        let mut k: usize = 0;
        while k < parts.len()
            invariant
                1 < parts@.len(),
                k <= parts@.len(),
                oks == parts@.map_values(|p: Vec<char>| p@),
                oks.len() == parts@.len(),
                sep_str@ == sep,
                out@ == "( "@ + spec_join(oks.subrange(0, k as int), sep),
            decreases parts@.len() - k,
        {
            if k > 0 {
                crate::chars::append_str(&mut out, sep_str);
            }
            crate::chars::append_vec(&mut out, &parts[k]);
            proof {
                crate::db_field::lemma_join_push(oks.subrange(0, k as int), oks[k as int], sep);
                assert(oks.subrange(0, k as int).push(oks[k as int]) =~= oks.subrange(0, k + 1));
                assert(oks[k as int] == parts@[k as int]@);
                if k == 0 {
                    assert(out@ =~= "( "@ + spec_join(oks.subrange(0, 1), sep));
                } else {
                    assert(out@ =~= "( "@ + spec_join(oks.subrange(0, k + 1), sep));
                }
            }
            k += 1;
        }
        crate::chars::append_str(&mut out, " )");
        proof {
            assert(oks.subrange(0, oks.len() as int) =~= oks);
            assert(out@ =~= "( "@ + spec_join(oks, sep) + " )"@);
        }
        Ok(out)
    }
}

/// Views distribute over appending one node.
pub proof fn lemma_terms_view_push(s: Seq<SQLTerm>, x: SQLTerm)
    ensures
        terms_view(s.push(x)) == terms_view(s).push(x@),
    decreases s.len(),
{
    let p = s.push(x);
    lemma_terms_view_len(s);
    if s.len() == 0 {
        assert(p.len() == 1);
        assert(p[0] == x);
        assert(p.subrange(1, 1) =~= Seq::<SQLTerm>::empty());
        assert(terms_view(p.subrange(1, 1)) == Seq::<TermG>::empty());
        assert(terms_view(p) =~= seq![x@]);
        assert(terms_view(s).push(x@) =~= seq![x@]);
    } else {
        let t = s.subrange(1, s.len() as int);
        lemma_terms_view_push(t, x);
        assert(p.subrange(1, p.len() as int) =~= t.push(x));
        assert(p[0] == s[0]);
        assert(seq![s[0]@] + terms_view(t).push(x@) =~= (seq![s[0]@] + terms_view(t)).push(x@));
    }
}


/// The textual form of one field predicate in the given style.
pub open spec fn spec_field_text(f: FieldG, style: Style, eq: CompOp, v: Seq<char>) -> Seq<char> {
    match style {
        Style::Html => "<span class=\"syntax_field\">"@ + f.name + eq.spec_str() + v
            + "</span>"@,
        _ => f.name + eq.spec_str() + v,
    }
}

/// The textual rendering of one IR node: like the SQL emission in shape, but
/// negation is pushed into the field's own form and values appear raw.
pub open spec fn spec_as_text(t: TermG, style: Style) -> Result<Seq<char>, ErrKind>
    decreases t, 2int,
{
    match t {
        TermG::Or(cs) => spec_text_list(cs, true, style),
        TermG::And(cs) => spec_text_list(cs, false, style),
        TermG::Not(inner) => match *inner {
            TermG::Not(x) => spec_as_text(*x, style),
            TermG::Value(f, eq, _, v) => Ok(spec_field_text(f, style, eq.spec_negate(), v)),
            _ => match spec_as_text(*inner, style) {
                Ok(s) => Ok("!"@ + s),
                Err(e) => Err(e),
            },
        },
        TermG::Value(f, eq, _, v) => Ok(spec_field_text(f, style, eq, v)),
        TermG::Like(f, v) => Ok(spec_field_text(f, style, CompOp::Equal, v)),
        TermG::Denied => Err(ErrKind::Denied),
    }
}

/// The successful textual child renderings, in order.
pub open spec fn spec_text_oks(cs: Seq<TermG>, style: Style) -> Seq<Seq<char>>
    decreases cs, 0int,
{
    if cs.len() == 0 {
        Seq::empty()
    } else {
        (match spec_as_text(cs[0], style) {
            Ok(s) => seq![s],
            Err(_) => Seq::empty(),
        }) + spec_text_oks(cs.subrange(1, cs.len() as int), style)
    }
}

/// A connective's textual rendering: parenthesized in plain styles, wrapped
/// in styled spans in HTML.
pub open spec fn spec_text_list(cs: Seq<TermG>, or: bool, style: Style) -> Result<
    Seq<char>,
    ErrKind,
>
    decreases cs, 1int,
{
    let oks = spec_text_oks(cs, style);
    if oks.len() == 0 {
        Err(ErrKind::Parse)
    } else if oks.len() == 1 {
        Ok(oks[0])
    } else {
        let joined = spec_join(oks, spec_comb_text(or, style));
        match style {
            Style::Html => Ok(
                "<span class=\"syntax_bracket\"><span class=\"syntax_b_start\">(</span><div class=\"syntax_in_brackets\">"@
                    + joined + "</div><span class=\"syntax_b_end\">)</span></span>"@,
            ),
            _ => Ok("("@ + joined + ")"@),
        }
    }
}

/// Appending one more child extends the surviving renderings by its text,
/// when that succeeds.
pub proof fn lemma_text_oks_push(cs: Seq<TermG>, x: TermG, style: Style)
    ensures
        spec_text_oks(cs.push(x), style) == spec_text_oks(cs, style) + (match spec_as_text(
            x,
            style,
        ) {
            Ok(s) => seq![s],
            Err(_) => Seq::<Seq<char>>::empty(),
        }),
    decreases cs.len(),
{
    let p = cs.push(x);
    if cs.len() == 0 {
        assert(p.len() == 1);
        assert(p[0] == x);
        assert(p.subrange(1, 1) =~= Seq::<TermG>::empty());
        assert(spec_text_oks(p.subrange(1, 1), style) =~= Seq::<Seq<char>>::empty());
        match spec_as_text(x, style) {
            Ok(s) => {
                assert(spec_text_oks(p, style) =~= seq![s]);
                assert(spec_text_oks(cs, style) + seq![s] =~= seq![s]);
            },
            Err(_) => {
                assert(spec_text_oks(p, style) =~= Seq::<Seq<char>>::empty());
                assert(spec_text_oks(cs, style) + Seq::<Seq<char>>::empty()
                    =~= Seq::<Seq<char>>::empty());
            },
        }
    } else {
        let t = cs.subrange(1, cs.len() as int);
        lemma_text_oks_push(t, x, style);
        assert(p.subrange(1, p.len() as int) =~= t.push(x));
        assert(p[0] == cs[0]);
        let head = match spec_as_text(cs[0], style) {
            Ok(s) => seq![s],
            Err(_) => Seq::<Seq<char>>::empty(),
        };
        let tailx = match spec_as_text(x, style) {
            Ok(s) => seq![s],
            Err(_) => Seq::<Seq<char>>::empty(),
        };
        assert(head + (spec_text_oks(t, style) + tailx) =~= (head + spec_text_oks(t, style))
            + tailx);
    }
}

impl SQLTerm {
    /// Renders this term as text in the given style, echoing the query back
    /// to a user.
    pub fn as_text(&self, style: Style) -> (r: Result<String, SuchError>)
        ensures
            r is Ok <==> spec_as_text(self@, style) is Ok,
            r is Ok ==> r->Ok_0@ == spec_as_text(self@, style)->Ok_0,
            r is Err ==> r->Err_0.kind() == spec_as_text(self@, style)->Err_0,
    {
        match self.as_text_chars(style) {
            Ok(v) => Ok(crate::chars::chars_to_string(&v)),
            Err(e) => Err(e),
        }
    }

    /// Renders this term as characters; the recursive core of the textual
    /// rendering.
    fn as_text_chars(&self, style: Style) -> (r: Result<Vec<char>, SuchError>)
        ensures
            r is Ok <==> spec_as_text(self@, style) is Ok,
            r is Ok ==> r->Ok_0@ == spec_as_text(self@, style)->Ok_0,
            r is Err ==> r->Err_0.kind() == spec_as_text(self@, style)->Err_0,
        decreases self, 1int,
    {
        match self {
            SQLTerm::OR(v) => {
                let r = explode_text_chars(v, Combinator::Or, style);
                proof {
                    assert(self@ == TermG::Or(terms_view(v@)));
                }
                r
            },
            SQLTerm::AND(v) => {
                let r = explode_text_chars(v, Combinator::And, style);
                proof {
                    assert(self@ == TermG::And(terms_view(v@)));
                }
                r
            },
            SQLTerm::NOT(val) => {
                match &**val {
                    SQLTerm::NOT(inner) => {
                        let r = (**inner).as_text_chars(style);
                        proof {
                            assert((**val)@ == TermG::Not(Box::new((**inner)@)));
                            assert(self@ == TermG::Not(Box::new((**val)@)));
                        }
                        r
                    },
                    SQLTerm::VALUE(f, eq, _, v) => {
                        let cs = crate::chars::str_to_chars(v.as_str());
                        let neq = eq.negate();
                        let out = field_text_chars(f, style, neq, &cs);
                        proof {
                            assert((**val)@ == TermG::Value(f@, *eq, (**val)@->Value_2, v@));
                            assert(self@ == TermG::Not(Box::new((**val)@)));
                        }
                        Ok(out)
                    },
                    _ => {
                        proof {
                            assert(self@ == TermG::Not(Box::new((**val)@)));
                            assert(!((**val)@ is Not));
                            assert(!((**val)@ is Value));
                        }
                        match (**val).as_text_chars(style) {
                            Ok(s) => {
                                let mut out: Vec<char> = Vec::new();
                                crate::chars::append_str(&mut out, "!");
                                crate::chars::append_vec(&mut out, &s);
                                proof {
                                    assert(Seq::<char>::empty() + "!"@ + s@ =~= "!"@ + s@);
                                }
                                Ok(out)
                            },
                            Err(e) => Err(e),
                        }
                    },
                }
            },
            SQLTerm::VALUE(f, eq, _, v) => {
                let cs = crate::chars::str_to_chars(v.as_str());
                let out = field_text_chars(f, style, *eq, &cs);
                proof {
                    assert(self@ == TermG::Value(f@, *eq, self@->Value_2, v@));
                }
                Ok(out)
            },
            SQLTerm::LIKE(f, v) => {
                let cs = crate::chars::str_to_chars(v.as_str());
                let out = field_text_chars(f, style, CompOp::Equal, &cs);
                proof {
                    assert(self@ == TermG::Like(f@, v@));
                }
                Ok(out)
            },
            SQLTerm::DENIED => Err(SuchError::Denied),
        }
    }
}

/// Builds the textual form of one field predicate.
fn field_text_chars(f: &DbField, style: Style, eq: CompOp, v: &Vec<char>) -> (r: Vec<char>)
    ensures
        r@ == spec_field_text(f@, style, eq, v@),
{
    let mut out: Vec<char> = Vec::new();
    let html = match style {
        Style::Html => true,
        _ => false,
    };
    if html {
        crate::chars::append_str(&mut out, "<span class=\"syntax_field\">");
    }
    crate::chars::append_str(&mut out, f.db_name.as_str());
    let opc = eq.to_chars();
    crate::chars::append_vec(&mut out, &opc);
    crate::chars::append_vec(&mut out, v);
    if html {
        crate::chars::append_str(&mut out, "</span>");
        proof {
            assert(out@ =~= "<span class=\"syntax_field\">"@ + f@.name + eq.spec_str() + v@
                + "</span>"@);
        }
    } else {
        proof {
            assert(out@ =~= f@.name + eq.spec_str() + v@);
        }
    }
    out
}

/// Renders the children of a connective as text, dropping the ones that
/// fail; an error only if none survive.
fn explode_text_chars(v: &Vec<SQLTerm>, comb: Combinator, style: Style) -> (r: Result<
    Vec<char>,
    SuchError,
>)
    ensures
        r is Ok <==> spec_text_list(terms_view(v@), comb is Or, style) is Ok,
        r is Ok ==> r->Ok_0@ == spec_text_list(terms_view(v@), comb is Or, style)->Ok_0,
        r is Err ==> r->Err_0.kind() == spec_text_list(terms_view(v@), comb is Or, style)->Err_0,
    decreases v@, 0int,
{
    let ghost or = comb is Or;
    let mut parts: Vec<Vec<char>> = Vec::new();
    let mut i: usize = 0;
    proof {
        lemma_terms_view_len(v@);
        assert(v@.subrange(0, 0) =~= Seq::<SQLTerm>::empty());
        assert(terms_view(v@.subrange(0, 0)) =~= Seq::<TermG>::empty());
        assert(parts@.map_values(|p: Vec<char>| p@) =~= spec_text_oks(
            terms_view(v@.subrange(0, 0)),
            style,
        ));
    }
    while i < v.len()
        invariant
            i <= v@.len(),
            or == comb is Or,
            parts@.map_values(|p: Vec<char>| p@) == spec_text_oks(
                terms_view(v@.subrange(0, i as int)),
                style,
            ),
        decreases v@.len() - i,
    {
        let child = &v[i];
        let one = child.as_text_chars(style);
        proof {
            let pre = terms_view(v@.subrange(0, i as int));
            lemma_terms_view_push(v@.subrange(0, i as int), v@[i as int]);
            assert(v@.subrange(0, i as int).push(v@[i as int]) =~= v@.subrange(0, i + 1));
            lemma_text_oks_push(pre, v@[i as int]@, style);
        }
        match one {
            Ok(s) => {
                parts.push(s);
                proof {
                    assert(parts@.map_values(|p: Vec<char>| p@) =~= spec_text_oks(
                        terms_view(v@.subrange(0, i + 1)),
                        style,
                    ));
                }
            },
            Err(_) => {
                proof {
                    assert(parts@.map_values(|p: Vec<char>| p@) =~= spec_text_oks(
                        terms_view(v@.subrange(0, i + 1)),
                        style,
                    ));
                }
            },
        }
        i += 1;
    }
    proof {
        assert(v@.subrange(0, v@.len() as int) =~= v@);
    }
    let ghost oks = spec_text_oks(terms_view(v@), style);
    if parts.len() == 0 {
        Err(SuchError::ParseError(crate::chars::str_to_string("Empty SQLTerm!")))
    } else if parts.len() == 1 {
        let mut out: Vec<char> = Vec::new();
        crate::chars::append_vec(&mut out, &parts[0]);
        proof {
            assert(oks[0] == parts@.map_values(|p: Vec<char>| p@)[0]);
            assert(Seq::<char>::empty() + parts@[0]@ =~= parts@[0]@);
        }
        Ok(out)
    } else {
        let sep_str = comb.to_text(style);
        let mut out: Vec<char> = Vec::new();
        let mut k: usize = 0;
        proof {
            assert(out@ =~= Seq::<char>::empty() + spec_join(
                oks.subrange(0, 0),
                spec_comb_text(or, style),
            ));
        }
        while k < parts.len()
            invariant
                1 < parts@.len(),
                k <= parts@.len(),
                or == comb is Or,
                oks == parts@.map_values(|p: Vec<char>| p@),
                oks.len() == parts@.len(),
                sep_str@ == spec_comb_text(or, style),
                out@ == spec_join(oks.subrange(0, k as int), spec_comb_text(or, style)),
            decreases parts@.len() - k,
        {
            if k > 0 {
                crate::chars::append_str(&mut out, sep_str);
            }
            crate::chars::append_vec(&mut out, &parts[k]);
            proof {
                let sep = spec_comb_text(or, style);
                crate::db_field::lemma_join_push(oks.subrange(0, k as int), oks[k as int], sep);
                assert(oks.subrange(0, k as int).push(oks[k as int]) =~= oks.subrange(0, k + 1));
                assert(oks[k as int] == parts@[k as int]@);
                if k == 0 {
                    assert(out@ =~= spec_join(oks.subrange(0, 1), sep));
                } else {
                    assert(out@ =~= spec_join(oks.subrange(0, k + 1), sep));
                }
            }
            k += 1;
        }
        proof {
            assert(oks.subrange(0, oks.len() as int) =~= oks);
        }
        let joined = out;
        let mut wrapped: Vec<char> = Vec::new();
        let html = match style {
            Style::Html => true,
            _ => false,
        };
        if html {
            crate::chars::append_str(
                &mut wrapped,
                "<span class=\"syntax_bracket\"><span class=\"syntax_b_start\">(</span><div class=\"syntax_in_brackets\">",
            );
            crate::chars::append_vec(&mut wrapped, &joined);
            crate::chars::append_str(
                &mut wrapped,
                "</div><span class=\"syntax_b_end\">)</span></span>",
            );
            proof {
                assert(wrapped@ =~= "<span class=\"syntax_bracket\"><span class=\"syntax_b_start\">(</span><div class=\"syntax_in_brackets\">"@
                    + spec_join(oks, spec_comb_text(or, style))
                    + "</div><span class=\"syntax_b_end\">)</span></span>"@);
            }
        } else {
            crate::chars::append_str(&mut wrapped, "(");
            crate::chars::append_vec(&mut wrapped, &joined);
            crate::chars::append_str(&mut wrapped, ")");
            proof {
                assert(wrapped@ =~= "("@ + spec_join(oks, spec_comb_text(or, style)) + ")"@);
            }
        }
        Ok(wrapped)
    }
}

impl Default for SQLTerm {
    /// The neutral empty term: an `OR` with no children, which emits
    /// nothing.
    fn default() -> (r: Self)
        ensures
            r@ == TermG::Or(Seq::<TermG>::empty()),
    {
        let r = SQLTerm::OR(Vec::new());
        proof {
            assert(terms_view(Seq::<SQLTerm>::empty()) =~= Seq::<TermG>::empty());
        }
        r
    }
}

} // verus!
