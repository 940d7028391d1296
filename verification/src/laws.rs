//! The library's general laws, stated over the same specification functions
//! the public contracts use, and proved once and for all inputs.

use vstd::prelude::*;

use crate::comp_op::CompOp;
use crate::dates::{Date, Direction};
use crate::db_field::{spec_join, FieldG};
use crate::error::ErrKind;
use crate::db_field::{spec_map_comma, spec_strip_pct, DbType};
use crate::escape::{
    lemma_escape_literal_wildcards, lemma_escape_no_backslash, lemma_escape_quote_pairs,
    no_quote, quote_pairs_ok, spec_escape, wildcards_escaped,
};
use crate::parser::{spec_choose_field, spec_choose_vec, spec_resolve_field, spec_resolve_term};
use crate::sql_term::{spec_emit, spec_emit_list, spec_emit_oks, TermG};

verus! {

broadcast use vstd::string::group_string_axioms;

/// Negating a comparator twice gives the comparator back: negation is an
/// involution over the six comparators.
pub proof fn lemma_comp_op_negate_involution(c: CompOp)
    ensures
        c.spec_negate().spec_negate() == c,
{
}

/// A doubly negated term emits exactly the SQL of the term itself: the
/// emitter collapses `NOT (NOT x)` to `x`.
pub proof fn lemma_double_negation_emit(x: TermG, today: Date)
    ensures
        spec_emit(TermG::Not(Box::new(TermG::Not(Box::new(x)))), today) == spec_emit(x, today),
{
}

/// Two negations at expression level cancel: the sign the walker threads
/// through an expression is the same after `!!` as without it.
pub proof fn lemma_double_negation_sign(
    ts: Seq<crate::parser::TokG>,
    i: int,
    schema: Seq<FieldG>,
    granted: Set<Seq<char>>,
    like_in_numerics: bool,
    acc: Seq<TermG>,
    or: bool,
    sign: CompOp,
)
    ensures
        crate::parser::spec_parse_expr(
            ts,
            i,
            schema,
            granted,
            like_in_numerics,
            acc,
            or,
            sign.spec_negate().spec_negate(),
        ) == crate::parser::spec_parse_expr(
            ts,
            i,
            schema,
            granted,
            like_in_numerics,
            acc,
            or,
            sign,
        ),
{
    lemma_comp_op_negate_involution(sign);
}

/// A qualified query against one field produces exactly one predicate: when
/// the name matches an alias, the fan-out has a single child, and that child
/// speaks of the matched field.
pub proof fn lemma_qualified_single_predicate(
    schema: Seq<FieldG>,
    granted: Set<Seq<char>>,
    like_in_numerics: bool,
    name: Seq<char>,
    cmp: CompOp,
    value: Seq<char>,
    like_starting: bool,
    like_ending: bool,
    to_val: Option<Seq<char>>,
)
    requires
        spec_choose_field(schema, name) is Some,
    ensures
        ({
            let t = spec_resolve_term(
                schema,
                granted,
                like_in_numerics,
                Some(name),
                cmp,
                value,
                like_starting,
                like_ending,
                to_val,
            );
            &&& t is Or
            &&& t->Or_0.len() == 1
            &&& t->Or_0[0] == spec_resolve_field(
                spec_choose_field(schema, name)->Some_0,
                granted,
                like_in_numerics,
                true,
                cmp,
                value,
                like_starting,
                like_ending,
                to_val,
            )
        }),
{
    let f = spec_choose_field(schema, name)->Some_0;
    assert(spec_choose_vec(schema, name) =~= seq![f]);
}

/// A bare word fans out over the whole schema, one child per field in
/// declaration order: a denied field contributes a `Denied` leaf, a text
/// field (or any field when `like_in_numerics` is set) a fuzzy
/// contains-match, and every other field an exact comparison.
pub proof fn lemma_bare_word_fanout(
    schema: Seq<FieldG>,
    granted: Set<Seq<char>>,
    like_in_numerics: bool,
    cmp: CompOp,
    value: Seq<char>,
)
    requires
        spec_choose_field(schema, Seq::<char>::empty()) is None,
    ensures
        ({
            let t = spec_resolve_term(
                schema,
                granted,
                like_in_numerics,
                None,
                cmp,
                value,
                false,
                false,
                None,
            );
            &&& t is Or
            &&& t->Or_0.len() == schema.len()
            &&& forall|i: int|
                0 <= i < schema.len() ==> #[trigger] t->Or_0[i] == (if !granted.contains(
                    schema[i].permission,
                ) {
                    TermG::Denied
                } else if schema[i].spec_is_text() || like_in_numerics {
                    TermG::Like(schema[i], "*"@ + value + "*"@)
                } else {
                    TermG::Value(schema[i], CompOp::Equal, Direction::From, value)
                })
        }),
{
    let t = spec_resolve_term(
        schema,
        granted,
        like_in_numerics,
        None,
        cmp,
        value,
        false,
        false,
        None,
    );
    assert(spec_choose_vec(schema, Seq::<char>::empty()) == schema);
    assert forall|i: int| 0 <= i < schema.len() implies #[trigger] t->Or_0[i] == (if !granted.contains(
        schema[i].permission,
    ) {
        TermG::Denied
    } else if schema[i].spec_is_text() || like_in_numerics {
        TermG::Like(schema[i], "*"@ + value + "*"@)
    } else {
        TermG::Value(schema[i], CompOp::Equal, Direction::From, value)
    }) by {
        assert(t->Or_0[i] == spec_resolve_field(
            schema[i],
            granted,
            like_in_numerics,
            false,
            cmp,
            value,
            false,
            false,
            None,
        ));
    }
}

/// A range term emits exactly `( low AND high )`: when both endpoint
/// predicates coerce, the half-open range appears as the conjunction of the
/// `>=` predicate of the lower and the `<` predicate of the upper value.
pub proof fn lemma_range_emission(
    f: FieldG,
    granted: Set<Seq<char>>,
    like_in_numerics: bool,
    cmp: CompOp,
    value: Seq<char>,
    to_val: Seq<char>,
    today: Date,
)
    requires
        granted.contains(f.permission),
        !value.contains('*'),
        !to_val.contains('*'),
        f.spec_try_eq(CompOp::Gte, Direction::From, value, today) is Ok,
        f.spec_try_eq(CompOp::Lt, Direction::To, to_val, today) is Ok,
    ensures
        spec_emit(
            spec_resolve_field(
                f,
                granted,
                like_in_numerics,
                true,
                cmp,
                value,
                false,
                false,
                Some(to_val),
            ),
            today,
        ) == Ok::<Seq<char>, ErrKind>(
            "( "@ + f.spec_try_eq(CompOp::Gte, Direction::From, value, today)->Ok_0 + " AND "@
                + f.spec_try_eq(CompOp::Lt, Direction::To, to_val, today)->Ok_0 + " )"@,
        ),
{
    let t = spec_resolve_field(
        f,
        granted,
        like_in_numerics,
        true,
        cmp,
        value,
        false,
        false,
        Some(to_val),
    );
    let lo = TermG::Value(f, CompOp::Gte, Direction::From, value);
    let hi = TermG::Value(f, CompOp::Lt, Direction::To, to_val);
    let e1 = f.spec_try_eq(CompOp::Gte, Direction::From, value, today)->Ok_0;
    let e2 = f.spec_try_eq(CompOp::Lt, Direction::To, to_val, today)->Ok_0;
    assert(t == TermG::And(seq![lo, hi]));
    assert(spec_emit(lo, today) == Ok::<Seq<char>, ErrKind>(e1));
    assert(spec_emit(hi, today) == Ok::<Seq<char>, ErrKind>(e2));
    let cs = seq![lo, hi];
    let tail = cs.subrange(1, 2);
    assert(tail.len() == 1 && tail[0] == hi);
    let tail2 = tail.subrange(1, 1);
    assert(tail2.len() == 0);
    assert(spec_emit_oks(tail2, today) == Seq::<Seq<char>>::empty());
    assert(spec_emit_oks(tail, today) == seq![e2] + spec_emit_oks(tail.subrange(1, 1), today));
    assert(spec_emit_oks(tail, today) =~= seq![e2]);
    assert(cs.subrange(1, 2) == tail);
    assert(spec_emit_oks(cs, today) == seq![e1] + spec_emit_oks(cs.subrange(1, 2), today));
    assert(spec_emit_oks(cs, today) =~= seq![e1, e2]);
    let oks = spec_emit_oks(cs, today);
    let sub = oks.subrange(1, 2);
    assert(sub.len() == 1 && sub[0] == e2);
    assert(spec_join(sub, " AND "@) == e2);
    assert(spec_join(oks, " AND "@) == oks[0] + " AND "@ + spec_join(oks.subrange(1, 2), " AND "@));
    assert(spec_join(oks, " AND "@) == e1 + " AND "@ + e2);
    assert(spec_emit_list(cs, " AND "@, today) == Ok::<Seq<char>, ErrKind>(
        "( "@ + spec_join(oks, " AND "@) + " )"@,
    ));
    assert(t->And_0 == cs);
    assert(spec_emit(t, today) == spec_emit_list(cs, " AND "@, today));
    assert("( "@ + spec_join(oks, " AND "@) + " )"@ =~= "( "@ + e1 + " AND "@ + e2 + " )"@);
}

/// The glob-escaping law, literal side: in a value free of the user
/// wildcards `*` and `?`, every SQL wildcard of the escaped value is an
/// escaped literal `\%` or `\_`.
pub proof fn lemma_glob_escaping_literals(s: Seq<char>)
    requires
        forall|i: int| 0 <= i < s.len() ==> s[i] != '*' && s[i] != '?',
    ensures
        wildcards_escaped(spec_escape(s)),
{
    lemma_escape_literal_wildcards(s);
}

/// The glob-escaping law, wildcard side: in a value free of literal `%`,
/// `_` and `\`, the escaped value holds no backslash, so every `%` and `_`
/// in it is the direct translation of a user `*` or `?`.
pub proof fn lemma_glob_escaping_wildcards(s: Seq<char>)
    requires
        forall|i: int| 0 <= i < s.len() ==> s[i] != '%' && s[i] != '_' && s[i] != '\\',
    ensures
        forall|i: int| 0 <= i < spec_escape(s).len() ==> spec_escape(s)[i] != '\\',
{
    lemma_escape_no_backslash(s);
}

/// The quote-doubling law: the escaped form of any user value holds single
/// quotes only in adjacent pairs, so no emitted literal ends early.
pub proof fn lemma_escaped_value_quotes_paired(s: Seq<char>)
    ensures
        quote_pairs_ok(spec_escape(s)),
{
    lemma_escape_quote_pairs(s);
}


/// Whether every column the term speaks of is one the caller may read:
/// `Denied` leaves are fine (they are dropped at emission), but every
/// surviving `Value` and `Like` leaf must name a permitted field.
pub open spec fn term_permitted(t: TermG, granted: Set<Seq<char>>) -> bool
    decreases t, 1int,
{
    match t {
        TermG::And(cs) => terms_permitted(cs, granted),
        TermG::Or(cs) => terms_permitted(cs, granted),
        TermG::Not(inner) => term_permitted(*inner, granted),
        TermG::Value(f, _, _, _) => granted.contains(f.permission),
        TermG::Like(f, _) => granted.contains(f.permission),
        TermG::Denied => true,
    }
}

/// Whether every term of the list is permitted.
pub open spec fn terms_permitted(cs: Seq<TermG>, granted: Set<Seq<char>>) -> bool
    decreases cs, 0int,
{
    if cs.len() == 0 {
        true
    } else {
        term_permitted(cs[0], granted) && terms_permitted(
            cs.subrange(1, cs.len() as int),
            granted,
        )
    }
}

proof fn lemma_terms_permitted_push(cs: Seq<TermG>, x: TermG, granted: Set<Seq<char>>)
    ensures
        terms_permitted(cs.push(x), granted) == (terms_permitted(cs, granted) && term_permitted(
            x,
            granted,
        )),
    decreases cs.len(),
{
    let p = cs.push(x);
    if cs.len() == 0 {
        assert(p.len() == 1);
        assert(p[0] == x);
        assert(p.subrange(1, 1) =~= Seq::<TermG>::empty());
        assert(terms_permitted(p.subrange(1, 1), granted));
    } else {
        let t = cs.subrange(1, cs.len() as int);
        lemma_terms_permitted_push(t, x, granted);
        assert(p.subrange(1, p.len() as int) =~= t.push(x));
        assert(p[0] == cs[0]);
    }
}

proof fn lemma_resolve_field_permitted(
    f: FieldG,
    granted: Set<Seq<char>>,
    like_in_numerics: bool,
    named: bool,
    cmp: CompOp,
    value: Seq<char>,
    like_starting: bool,
    like_ending: bool,
    to_val: Option<Seq<char>>,
)
    ensures
        term_permitted(
            spec_resolve_field(
                f,
                granted,
                like_in_numerics,
                named,
                cmp,
                value,
                like_starting,
                like_ending,
                to_val,
            ),
            granted,
        ),
{
    let t = spec_resolve_field(
        f,
        granted,
        like_in_numerics,
        named,
        cmp,
        value,
        like_starting,
        like_ending,
        to_val,
    );
    if granted.contains(f.permission) {
        if like_ending || like_starting {
            let glob = (if like_starting {
                "*"@
            } else {
                Seq::<char>::empty()
            }) + value + (if like_ending {
                "*"@
            } else {
                Seq::<char>::empty()
            });
            assert(term_permitted(TermG::Like(f, glob), granted));
            if cmp is NotEqual {
                assert(term_permitted(TermG::Not(Box::new(TermG::Like(f, glob))), granted));
            }
        } else if !named {
            if f.spec_is_text() || like_in_numerics {
                assert(term_permitted(TermG::Like(f, "*"@ + value + "*"@), granted));
            } else {
                assert(term_permitted(
                    TermG::Value(f, CompOp::Equal, Direction::From, value),
                    granted,
                ));
            }
        } else if to_val is Some {
            let cs = t->And_0;
            assert(cs.len() == 2);
            assert(term_permitted(cs[0], granted));
            assert(term_permitted(cs[1], granted));
            let t1 = cs.subrange(1, 2);
            assert(t1.len() == 1 && t1[0] == cs[1]);
            let t2 = t1.subrange(1, 1);
            assert(t2.len() == 0);
            assert(terms_permitted(t2, granted));
            assert(terms_permitted(t1, granted));
            assert(terms_permitted(cs, granted));
        } else if cmp is NotEqual {
            assert(term_permitted(
                TermG::Value(f, CompOp::Equal, Direction::From, value),
                granted,
            ));
            assert(term_permitted(
                TermG::Not(Box::new(TermG::Value(f, CompOp::Equal, Direction::From, value))),
                granted,
            ));
        } else {
            assert(term_permitted(TermG::Value(f, cmp, Direction::From, value), granted));
        }
    }
}

proof fn lemma_resolve_term_fields_permitted(
    fields: Seq<FieldG>,
    granted: Set<Seq<char>>,
    like_in_numerics: bool,
    named: bool,
    cmp: CompOp,
    value: Seq<char>,
    like_starting: bool,
    like_ending: bool,
    to_val: Option<Seq<char>>,
)
    ensures
        terms_permitted(
            fields.map_values(
                |f: FieldG|
                    spec_resolve_field(
                        f,
                        granted,
                        like_in_numerics,
                        named,
                        cmp,
                        value,
                        like_starting,
                        like_ending,
                        to_val,
                    ),
            ),
            granted,
        ),
    decreases fields.len(),
{
    let m = fields.map_values(
        |f: FieldG|
            spec_resolve_field(
                f,
                granted,
                like_in_numerics,
                named,
                cmp,
                value,
                like_starting,
                like_ending,
                to_val,
            ),
    );
    if fields.len() == 0 {
        assert(m.len() == 0);
    } else {
        let tail = fields.subrange(1, fields.len() as int);
        lemma_resolve_term_fields_permitted(
            tail,
            granted,
            like_in_numerics,
            named,
            cmp,
            value,
            like_starting,
            like_ending,
            to_val,
        );
        lemma_resolve_field_permitted(
            fields[0],
            granted,
            like_in_numerics,
            named,
            cmp,
            value,
            like_starting,
            like_ending,
            to_val,
        );
        let mt = tail.map_values(
            |f: FieldG|
                spec_resolve_field(
                    f,
                    granted,
                    like_in_numerics,
                    named,
                    cmp,
                    value,
                    like_starting,
                    like_ending,
                    to_val,
                ),
        );
        assert(m.subrange(1, m.len() as int) =~= mt);
        assert(m[0] == spec_resolve_field(
            fields[0],
            granted,
            like_in_numerics,
            named,
            cmp,
            value,
            like_starting,
            like_ending,
            to_val,
        ));
        assert(terms_permitted(m, granted));
    }
}

proof fn lemma_resolve_term_permitted(
    schema: Seq<FieldG>,
    granted: Set<Seq<char>>,
    like_in_numerics: bool,
    name: Option<Seq<char>>,
    cmp: CompOp,
    value: Seq<char>,
    like_starting: bool,
    like_ending: bool,
    to_val: Option<Seq<char>>,
)
    ensures
        term_permitted(
            spec_resolve_term(
                schema,
                granted,
                like_in_numerics,
                name,
                cmp,
                value,
                like_starting,
                like_ending,
                to_val,
            ),
            granted,
        ),
{
    let needle = match name {
        Some(n) => n,
        None => Seq::<char>::empty(),
    };
    lemma_resolve_term_fields_permitted(
        spec_choose_vec(schema, needle),
        granted,
        like_in_numerics,
        name is Some,
        cmp,
        value,
        like_starting,
        like_ending,
        to_val,
    );
}

proof fn lemma_parse_term_permitted(
    ts: Seq<crate::parser::TokG>,
    i: int,
    schema: Seq<FieldG>,
    granted: Set<Seq<char>>,
    like_in_numerics: bool,
    name: Option<Seq<char>>,
    cmp: CompOp,
)
    ensures
        crate::parser::spec_parse_term(
            ts,
            i,
            schema,
            granted,
            like_in_numerics,
            name,
            cmp,
        ) is Some ==> term_permitted(
            (crate::parser::spec_parse_term(
                ts,
                i,
                schema,
                granted,
                like_in_numerics,
                name,
                cmp,
            )->Some_0).0,
            granted,
        ),
{
    let r = crate::parser::spec_parse_term(ts, i, schema, granted, like_in_numerics, name, cmp);
    if r is Some {
        let ls1 = 0 <= i < ts.len() && ts[i] is Star;
        let le1 = 0 <= i < ts.len() && ts[i] is Caret;
        let p1: int = if ls1 || le1 {
            i + 1
        } else {
            i
        };
        let value = match ts[p1] {
            crate::parser::TokG::Word(w) => w,
            crate::parser::TokG::Quoted(q) => q,
            _ => Seq::<char>::empty(),
        };
        let p2 = p1 + 1;
        let ls2 = ls1 || (p2 < ts.len() && ts[p2] is Dollar);
        let le2 = le1 || (p2 < ts.len() && ts[p2] is Star);
        let p3: int = if p2 < ts.len() && (ts[p2] is Dollar || ts[p2] is Star) {
            p2 + 1
        } else {
            p2
        };
        let has_to = p3 + 1 < ts.len() && ts[p3] is Dash && (ts[p3 + 1] is Word || ts[p3
            + 1] is Quoted);
        let to_val = if has_to {
            match ts[p3 + 1] {
                crate::parser::TokG::Word(w) => Some(w),
                crate::parser::TokG::Quoted(q) => Some(q),
                _ => None,
            }
        } else {
            None
        };
        lemma_resolve_term_permitted(
            schema,
            granted,
            like_in_numerics,
            name,
            cmp,
            value,
            ls2,
            le2,
            to_val,
        );
    }
}

proof fn lemma_parse_field_permitted(
    ts: Seq<crate::parser::TokG>,
    i: int,
    schema: Seq<FieldG>,
    granted: Set<Seq<char>>,
    like_in_numerics: bool,
    sign: CompOp,
)
    ensures
        crate::parser::spec_parse_field(ts, i, schema, granted, like_in_numerics, sign) is Some
            ==> term_permitted(
            (crate::parser::spec_parse_field(
                ts,
                i,
                schema,
                granted,
                like_in_numerics,
                sign,
            )->Some_0).0,
            granted,
        ),
{
    let r = crate::parser::spec_parse_field(ts, i, schema, granted, like_in_numerics, sign);
    if r is Some {
        let name = ts[i]->Word_0;
        let op = ts[i + 1]->Cmp_0;
        let (par, j) = crate::parser::spec_bangs(ts, i + 2);
        let not = (sign is NotEqual) != par;
        let eff = if not {
            op.spec_negate()
        } else {
            op
        };
        lemma_parse_term_permitted(
            ts,
            j,
            schema,
            granted,
            like_in_numerics,
            Some(name),
            eff,
        );
    }
}

proof fn lemma_parse_expr_permitted(
    ts: Seq<crate::parser::TokG>,
    i: int,
    schema: Seq<FieldG>,
    granted: Set<Seq<char>>,
    like_in_numerics: bool,
    acc: Seq<TermG>,
    or: bool,
    sign: CompOp,
)
    requires
        terms_permitted(acc, granted),
    ensures
        crate::parser::spec_parse_expr(
            ts,
            i,
            schema,
            granted,
            like_in_numerics,
            acc,
            or,
            sign,
        ) is Some ==> term_permitted(
            (crate::parser::spec_parse_expr(
                ts,
                i,
                schema,
                granted,
                like_in_numerics,
                acc,
                or,
                sign,
            )->Some_0).0,
            granted,
        ),
    decreases ts.len() - i, 2int,
{
    let r = crate::parser::spec_parse_expr(ts, i, schema, granted, like_in_numerics, acc, or, sign);
    if r is Some {
        if i < 0 {
        } else if i >= ts.len() || ts[i] is RPar || ts[i] is Semi {
        } else if ts[i] is AndOp {
            lemma_parse_expr_permitted(
                ts,
                i + 1,
                schema,
                granted,
                like_in_numerics,
                acc,
                false,
                sign,
            );
        } else if ts[i] is OrOp {
            lemma_parse_expr_permitted(
                ts,
                i + 1,
                schema,
                granted,
                like_in_numerics,
                acc,
                true,
                sign,
            );
        } else if ts[i] is Bang || ts[i] is NotKw {
            lemma_parse_expr_permitted(
                ts,
                i + 1,
                schema,
                granted,
                like_in_numerics,
                acc,
                or,
                sign.spec_negate(),
            );
        } else if ts[i] is LPar {
            let sub = crate::parser::spec_parse_expr(
                ts,
                i + 1,
                schema,
                granted,
                like_in_numerics,
                Seq::empty(),
                false,
                CompOp::Equal,
            );
            assert(terms_permitted(Seq::<TermG>::empty(), granted));
            lemma_parse_expr_permitted(
                ts,
                i + 1,
                schema,
                granted,
                like_in_numerics,
                Seq::empty(),
                false,
                CompOp::Equal,
            );
            match sub {
                None => {},
                Some((t, j)) => {
                    if j <= i || j >= ts.len() || !(ts[j] is RPar) {
                    } else {
                        lemma_terms_permitted_push(acc, t, granted);
                        lemma_parse_expr_permitted(
                            ts,
                            j + 1,
                            schema,
                            granted,
                            like_in_numerics,
                            acc.push(t),
                            or,
                            sign,
                        );
                    }
                },
            }
        } else if ts[i] is Word && i + 1 < ts.len() && ts[i + 1] is Cmp {
            let sub = crate::parser::spec_parse_field(
                ts,
                i,
                schema,
                granted,
                like_in_numerics,
                sign,
            );
            lemma_parse_field_permitted(ts, i, schema, granted, like_in_numerics, sign);
            match sub {
                None => {},
                Some((t, j)) => {
                    if j <= i {
                    } else {
                        lemma_terms_permitted_push(acc, t, granted);
                        lemma_parse_expr_permitted(
                            ts,
                            j,
                            schema,
                            granted,
                            like_in_numerics,
                            acc.push(t),
                            or,
                            sign,
                        );
                    }
                },
            }
        } else {
            let sub = crate::parser::spec_parse_term(
                ts,
                i,
                schema,
                granted,
                like_in_numerics,
                None,
                sign,
            );
            lemma_parse_term_permitted(ts, i, schema, granted, like_in_numerics, None, sign);
            match sub {
                None => {},
                Some((t, j)) => {
                    if j <= i {
                    } else {
                        lemma_terms_permitted_push(acc, t, granted);
                        lemma_parse_expr_permitted(
                            ts,
                            j,
                            schema,
                            granted,
                            like_in_numerics,
                            acc.push(t),
                            or,
                            sign,
                        );
                    }
                },
            }
        }
    }
}

/// The permission law: whatever the query text, a successful parse never
/// builds a `Value` or `Like` leaf over a field the caller has no permission
/// for — forbidden columns reach the IR only as `Denied` leaves, which the
/// emitter drops. Together with the exact emission contracts this keeps a
/// forbidden column's name out of the emitted WHERE fragment.
pub proof fn lemma_query_only_permitted_fields(
    q: Seq<char>,
    schema: Seq<FieldG>,
    granted: Set<Seq<char>>,
    like_in_numerics: bool,
)
    ensures
        crate::parser::spec_query(q, schema, granted, like_in_numerics) is Some ==> term_permitted(
            (crate::parser::spec_query(q, schema, granted, like_in_numerics)->Some_0).0,
            granted,
        ),
{
    let r = crate::parser::spec_query(q, schema, granted, like_in_numerics);
    if r is Some {
        match crate::parser::spec_tokenize(q) {
            None => {},
            Some(ts) => {
                if ts.len() == 0 {
                    assert(terms_permitted(Seq::<TermG>::empty(), granted));
                } else if ts[0] is Semi {
                    assert(terms_permitted(Seq::<TermG>::empty(), granted));
                } else {
                    assert(terms_permitted(Seq::<TermG>::empty(), granted));
                    lemma_parse_expr_permitted(
                        ts,
                        0,
                        schema,
                        granted,
                        like_in_numerics,
                        Seq::empty(),
                        false,
                        CompOp::Equal,
                    );
                }
            },
        }
    }
}



/// The quote scanner, outside a literal: a quote opens a literal, every
/// other character stays outside; the scan must end outside.
pub open spec fn qd_out(s: Seq<char>) -> bool
    decreases s.len(), 0int,
{
    if s.len() == 0 {
        true
    } else if s[0] == '\'' {
        qd_in(s.subrange(1, s.len() as int))
    } else {
        qd_out(s.subrange(1, s.len() as int))
    }
}

/// The quote scanner, inside a literal: a doubled quote stays inside, a
/// single quote closes the literal, and the literal must close before the
/// end.
pub open spec fn qd_in(s: Seq<char>) -> bool
    decreases s.len(), 1int,
{
    if s.len() == 0 {
        false
    } else if s[0] == '\'' {
        if s.len() >= 2 && s[1] == '\'' {
            qd_in(s.subrange(2, s.len() as int))
        } else {
            qd_out(s.subrange(1, s.len() as int))
        }
    } else {
        qd_in(s.subrange(1, s.len() as int))
    }
}

/// A string without quotes scans as all-outside.
proof fn lemma_no_quote_qd_out(s: Seq<char>)
    requires
        no_quote(s),
    ensures
        qd_out(s),
    decreases s.len(),
{
    if s.len() > 0 {
        lemma_no_quote_qd_out(s.subrange(1, s.len() as int));
    }
}

/// A string without quotes is trivially quote-paired.
proof fn lemma_no_quote_qpo(s: Seq<char>)
    requires
        no_quote(s),
    ensures
        quote_pairs_ok(s),
    decreases s.len(),
{
    if s.len() > 0 {
        lemma_no_quote_qpo(s.subrange(1, s.len() as int));
    }
}

/// Quote discipline survives concatenation, from either scanner state.
proof fn lemma_qd_concat(a: Seq<char>, b: Seq<char>)
    requires
        qd_out(b),
    ensures
        qd_out(a) ==> qd_out(a + b),
        qd_in(a) ==> qd_in(a + b),
    decreases a.len(),
{
    if a.len() == 0 {
        assert(a + b =~= b);
    } else {
        let t = a.subrange(1, a.len() as int);
        lemma_qd_concat(t, b);
        assert((a + b).subrange(1, (a + b).len() as int) =~= t + b);
        if a[0] == '\'' {
            if a.len() >= 2 && a[1] == '\'' {
                let t2 = a.subrange(2, a.len() as int);
                lemma_qd_concat(t2, b);
                assert((a + b).subrange(2, (a + b).len() as int) =~= t2 + b);
            } else if a.len() == 1 {
                if qd_in(a) {
                    assert(qd_out(a.subrange(1, 1)));
                    if b.len() >= 1 && b[0] == '\'' {
                        assert((a + b).subrange(2, (a + b).len() as int) =~= b.subrange(
                            1,
                            b.len() as int,
                        ));
                        assert(qd_in(b.subrange(1, b.len() as int)));
                        assert(qd_in(a + b));
                    } else {
                        assert((a + b).subrange(1, (a + b).len() as int) =~= b);
                        assert(qd_in(a + b));
                    }
                }
            }
        }
    }
}

/// A quote-paired body followed by a closing quote scans from inside to
/// done.
proof fn lemma_qpo_closes(c: Seq<char>)
    requires
        quote_pairs_ok(c),
    ensures
        qd_in(c + seq!['\'']),
    decreases c.len(),
{
    let w = c + seq!['\''];
    if c.len() == 0 {
        assert(w.len() == 1 && w[0] == '\'');
        assert(w.subrange(1, 1).len() == 0);
        assert(qd_out(w.subrange(1, 1)));
    } else if c[0] != '\'' {
        let t = c.subrange(1, c.len() as int);
        lemma_qpo_closes(t);
        assert(w.subrange(1, w.len() as int) =~= t + seq!['\'']);
    } else {
        let t = c.subrange(2, c.len() as int);
        lemma_qpo_closes(t);
        assert(c.len() >= 2 && c[1] == '\'');
        assert(w.subrange(2, w.len() as int) =~= t + seq!['\'']);
    }
}

/// A single-quoted literal with a quote-paired body scans as all-outside.
proof fn lemma_quoted_literal_qd(c: Seq<char>)
    requires
        quote_pairs_ok(c),
    ensures
        qd_out(seq!['\''] + c + seq!['\'']),
{
    lemma_qpo_closes(c);
    let w = seq!['\''] + c + seq!['\''];
    assert(w[0] == '\'');
    assert(w.subrange(1, w.len() as int) =~= c + seq!['\'']);
}

/// Every character of `s` that is not `%` survives the percent strip.
proof fn lemma_strip_pct_chars(s: Seq<char>, k: int)
    requires
        0 <= k < s.len(),
        s[k] != '%',
    ensures
        spec_strip_pct(s).contains(s[k]),
    decreases s.len(),
{
    let t = s.subrange(1, s.len() as int);
    if k == 0 {
        assert(spec_strip_pct(s) == seq![s[0]] + spec_strip_pct(t));
        assert((seq![s[0]] + spec_strip_pct(t))[0] == s[0]);
    } else {
        lemma_strip_pct_chars(t, k - 1);
        let r = spec_strip_pct(t);
        let j = choose|j: int| 0 <= j < r.len() && r[j] == t[k - 1];
        if s[0] == '%' {
            assert(spec_strip_pct(s) == r);
        } else {
            assert(spec_strip_pct(s) == seq![s[0]] + r);
            assert((seq![s[0]] + r)[j + 1] == r[j]);
        }
    }
}

/// What the integer coercion accepts holds no quote.
proof fn lemma_integer_checker_no_quote(min: u64, max: u64, val: Seq<char>)
    requires
        DbType::INTEGER(min, max).spec_checker(val) is Some,
    ensures
        no_quote(DbType::INTEGER(min, max).spec_checker(val)->Some_0),
{
    let c = spec_map_comma(val);
    let stripped = spec_strip_pct(c);
    let d = if stripped.len() >= 1 && stripped[0] == '+' {
        stripped.subrange(1, stripped.len() as int)
    } else {
        stripped
    };
    assert(crate::num::all_digits(d));
    assert forall|k: int| 0 <= k < c.len() implies c[k] != '\'' by {
        if c[k] != '%' {
            lemma_strip_pct_chars(c, k);
            let j = choose|j: int| 0 <= j < stripped.len() && stripped[j] == c[k];
            if j == 0 && stripped[0] == '+' {
            } else {
                if stripped.len() >= 1 && stripped[0] == '+' {
                    assert(stripped[j] == d[j - 1]);
                    assert(crate::chars::spec_is_digit(d[j - 1]));
                } else {
                    assert(crate::chars::spec_is_digit(d[j]));
                }
            }
        }
    }
}

/// Lower-casing only changes letters, so a quote-free lower-casing means a
/// quote-free original.
proof fn lemma_lower_no_quote(t: Seq<char>)
    requires
        no_quote(crate::chars::spec_lower_seq(t)),
    ensures
        no_quote(t),
{
    assert forall|k: int| 0 <= k < t.len() implies t[k] != '\'' by {
        assert(crate::chars::spec_lower_seq(t)[k] == crate::chars::spec_lower(t[k]));
        if t[k] == '\'' {
            assert(crate::chars::spec_lower(t[k]) == '\'');
        }
    }
}

/// What the decimal recognizer accepts holds no quote.
proof fn lemma_decimal_no_quote(s: Seq<char>)
    requires
        crate::num::spec_is_decimal(s),
    ensures
        no_quote(s),
{
    let i0: int = if s.len() >= 1 && (s[0] == '+' || s[0] == '-') {
        1
    } else {
        0
    };
    let t = s.subrange(i0, s.len() as int);
    if crate::num::spec_is_inf_nan(t) {
        assert(no_quote(crate::chars::spec_lower_seq(t))) by {
            let low = crate::chars::spec_lower_seq(t);
            if low == seq!['i', 'n', 'f'] {
                assert(low.len() == 3);
                assert(low[0] == 'i' && low[1] == 'n' && low[2] == 'f');
            } else if low == seq!['i', 'n', 'f', 'i', 'n', 'i', 't', 'y'] {
                assert(low.len() == 8);
                assert(low[0] == 'i' && low[1] == 'n' && low[2] == 'f' && low[3] == 'i' && low[4]
                    == 'n' && low[5] == 'i' && low[6] == 't' && low[7] == 'y');
            } else {
                assert(low == seq!['n', 'a', 'n']);
                assert(low.len() == 3);
                assert(low[0] == 'n' && low[1] == 'a' && low[2] == 'n');
            }
        }
        lemma_lower_no_quote(t);
        assert forall|k: int| 0 <= k < s.len() implies s[k] != '\'' by {
            if k >= i0 {
                assert(s[k] == t[k - i0]);
            }
        }
    } else {
        let d1 = crate::num::spec_digits_end(s, i0);
        crate::num::lemma_digits_end_bounds(s, i0);
        if d1 < s.len() && s[d1] == '.' {
            let d2 = crate::num::spec_digits_end(s, d1 + 1);
            crate::num::lemma_digits_end_bounds(s, d1 + 1);
            lemma_exp_tail_no_quote(s, d2);
            assert forall|k: int| 0 <= k < s.len() implies s[k] != '\'' by {
                if k < i0 {
                } else if k < d1 {
                    assert(crate::chars::spec_is_digit(s[k]));
                } else if k == d1 {
                } else if k < d2 {
                    assert(crate::chars::spec_is_digit(s[k]));
                } else {
                    assert(exp_region_char_ok(s, d2, k));
                }
            }
        } else {
            lemma_exp_tail_no_quote(s, d1);
            assert forall|k: int| 0 <= k < s.len() implies s[k] != '\'' by {
                if k < i0 {
                } else if k < d1 {
                    assert(crate::chars::spec_is_digit(s[k]));
                } else {
                    assert(exp_region_char_ok(s, d1, k));
                }
            }
        }
    }
}

/// Whether the character at `k`, inside an exponent region beginning at
/// `pos`, is one an exponent may hold.
spec fn exp_region_char_ok(s: Seq<char>, pos: int, k: int) -> bool {
    pos <= k < s.len() ==> (s[k] == 'e' || s[k] == 'E' || s[k] == '+' || s[k] == '-'
        || crate::chars::spec_is_digit(s[k]))
}

/// In an accepted exponent-or-end region no quote appears.
proof fn lemma_exp_tail_no_quote(s: Seq<char>, pos: int)
    requires
        0 <= pos <= s.len(),
        crate::num::spec_exp_or_end(s, pos),
    ensures
        forall|k: int| exp_region_char_ok(s, pos, k),
{
    if pos == s.len() {
    } else {
        let j: int = if pos + 1 < s.len() && (s[pos + 1] == '+' || s[pos + 1] == '-') {
            pos + 2
        } else {
            pos + 1
        };
        crate::num::lemma_digits_end_bounds(s, j);
        assert forall|k: int| exp_region_char_ok(s, pos, k) by {
            if pos <= k < s.len() {
                if k == pos {
                } else if k < j {
                } else {
                    assert(crate::chars::spec_is_digit(s[k]));
                }
            }
        }
    }
}



proof fn lemma_cmp_str_no_quote(c: CompOp)
    ensures
        no_quote(c.spec_str()),
{
    let r = c.spec_str();
    match c {
        CompOp::Equal => {
            assert(r.len() == 1 && r[0] == '=');
        },
        CompOp::Gt => {
            assert(r.len() == 1 && r[0] == '>');
        },
        CompOp::Gte => {
            assert(r.len() == 2 && r[0] == '>' && r[1] == '=');
        },
        CompOp::Lt => {
            assert(r.len() == 1 && r[0] == '<');
        },
        CompOp::Lte => {
            assert(r.len() == 2 && r[0] == '<' && r[1] == '=');
        },
        CompOp::NotEqual => {
            assert(r.len() == 2 && r[0] == '!' && r[1] == '=');
        },
    }
}

proof fn lemma_numeric_checker_no_quote(len: u32, scale: u32, val: Seq<char>)
    requires
        DbType::NUMERIC(len, scale).spec_checker(val) is Some,
    ensures
        no_quote(DbType::NUMERIC(len, scale).spec_checker(val)->Some_0),
{
    let c = spec_map_comma(val);
    let num = spec_strip_pct(c);
    lemma_decimal_no_quote(num);
    assert forall|k: int| 0 <= k < c.len() implies c[k] != '\'' by {
        if c[k] != '%' {
            lemma_strip_pct_chars(c, k);
            let j = choose|j: int| 0 <= j < num.len() && num[j] == c[k];
        }
    }
}

/// What the timestamp coercion accepts holds no quote.
proof fn lemma_timestamp_checker_no_quote(val: Seq<char>)
    requires
        crate::db_field::spec_timestamp_checker(val) is Some,
    ensures
        no_quote(crate::db_field::spec_timestamp_checker(val)->Some_0),
{
    let r = crate::db_field::spec_timestamp_checker(val)->Some_0;
    assert forall|k: int| 0 <= k < val.len() implies val[k] != '\'' by {
        assert(crate::db_field::spec_ts_char_ok(val[k]));
    }
    if val.len() == 10 {
        reveal_strlit(" 00:00:00");
        assert(r == val + " 00:00:00"@);
        assert(" 00:00:00"@.len() == 9);
        assert forall|k: int| 0 <= k < r.len() implies r[k] != '\'' by {
            if k >= 10 {
                let w = " 00:00:00"@;
                assert(r[k] == w[k - 10]);
                assert(w[0] == ' ' && w[1] == '0' && w[2] == '0' && w[3] == ':' && w[4] == '0'
                    && w[5] == '0' && w[6] == ':' && w[7] == '0' && w[8] == '0');
            }
        }
    }
}

/// A resolved date holds digits and dashes only, so no quote.
proof fn lemma_date_shaped_no_quote(s: Seq<char>)
    requires
        crate::dates::date_shaped(s),
    ensures
        no_quote(s),
{
    assert forall|k: int| 0 <= k < s.len() implies s[k] != '\'' by {
        assert(crate::chars::spec_is_digit(s[k]) || s[k] == '-');
    }
}

/// The comparison predicate of a quote-free column scans as all-outside:
/// user data appears only inside a properly quoted literal or as a coerced
/// quote-free number.
proof fn lemma_try_eq_qd(f: FieldG, eq: CompOp, d: Direction, v: Seq<char>, today: Date)
    requires
        no_quote(f.name),
    ensures
        f.spec_try_eq(eq, d, v, today) is Ok ==> qd_out(f.spec_try_eq(eq, d, v, today)->Ok_0),
{
    let r = f.spec_try_eq(eq, d, v, today);
    if r is Ok {
        lemma_cmp_str_no_quote(eq);
        reveal_strlit("'");
        assert("'"@.len() == 1 && "'"@[0] == '\'');
        match f.ty {
            DbType::BOOL => {
                match crate::db_field::spec_try_bool(v) {
                    Some(b) => {
                        if b == (eq is Equal) {
                            lemma_no_quote_qd_out(f.name);
                        } else {
                            reveal_strlit("=false");
                            let w = "=false"@;
                            assert(w.len() == 6);
                            assert(w[0] == '=' && w[1] == 'f' && w[2] == 'a' && w[3] == 'l'
                                && w[4] == 's' && w[5] == 'e');
                            let out = f.name + w;
                            assert(no_quote(out)) by {
                                assert forall|k: int| 0 <= k < out.len() implies out[k]
                                    != '\'' by {
                                    if k < f.name.len() {
                                        assert(out[k] == f.name[k]);
                                    } else {
                                        assert(out[k] == w[k - f.name.len()]);
                                    }
                                }
                            }
                            lemma_no_quote_qd_out(out);
                        }
                    },
                    None => {},
                }
            },
            DbType::NUMERIC(len, scale) => {
                let sv = f.ty.spec_sql_safe(v)->Some_0;
                lemma_numeric_checker_no_quote(len, scale, spec_escape(v));
                let out = f.name + eq.spec_str() + sv;
                assert(no_quote(out)) by {
                    lemma_no_quote_concat3(f.name, eq.spec_str(), sv);
                }
                lemma_no_quote_qd_out(out);
            },
            DbType::INTEGER(min, max) => {
                let sv = f.ty.spec_sql_safe(v)->Some_0;
                lemma_integer_checker_no_quote(min, max, spec_escape(v));
                let out = f.name + eq.spec_str() + sv;
                assert(no_quote(out)) by {
                    lemma_no_quote_concat3(f.name, eq.spec_str(), sv);
                }
                lemma_no_quote_qd_out(out);
            },
            DbType::DATE => {
                let ds = crate::dates::spec_resolved_date(
                    today.year as int,
                    today.month as int,
                    today.day as int,
                    d is To,
                    v,
                )->Some_0;
                assert(crate::dates::date_shaped(ds));
                lemma_date_shaped_no_quote(ds);
                lemma_quoted_piece_qd(f.name + eq.spec_str(), ds);
                assert(no_quote(f.name + eq.spec_str())) by {
                    lemma_no_quote_concat2(f.name, eq.spec_str());
                }
                assert(r->Ok_0 =~= (f.name + eq.spec_str()) + "'"@ + ds + "'"@);
            },
            _ => {
                let sv = f.ty.spec_sql_safe(v)->Some_0;
                assert(quote_pairs_ok(sv)) by {
                    match f.ty {
                        DbType::VARCHAR(_) | DbType::TEXT => {
                            assert(sv == spec_escape(v));
                            lemma_escape_quote_pairs(v);
                        },
                        DbType::TIMESTAMP => {
                            lemma_timestamp_checker_no_quote(spec_escape(v));
                            lemma_no_quote_qpo(sv);
                        },
                        _ => {},
                    }
                }
                assert(no_quote(f.name + eq.spec_str())) by {
                    lemma_no_quote_concat2(f.name, eq.spec_str());
                }
                lemma_quoted_piece_qd_paired(f.name + eq.spec_str(), sv);
                assert(r->Ok_0 =~= (f.name + eq.spec_str()) + "'"@ + sv + "'"@);
            },
        }
    }
}

/// Concatenating two quote-free strings stays quote-free.
proof fn lemma_no_quote_concat2(a: Seq<char>, b: Seq<char>)
    requires
        no_quote(a),
        no_quote(b),
    ensures
        no_quote(a + b),
{
    assert forall|k: int| 0 <= k < (a + b).len() implies (a + b)[k] != '\'' by {
        if k < a.len() {
            assert((a + b)[k] == a[k]);
        } else {
            assert((a + b)[k] == b[k - a.len()]);
        }
    }
}

/// Concatenating three quote-free strings stays quote-free.
proof fn lemma_no_quote_concat3(a: Seq<char>, b: Seq<char>, c: Seq<char>)
    requires
        no_quote(a),
        no_quote(b),
        no_quote(c),
    ensures
        no_quote(a + b + c),
{
    lemma_no_quote_concat2(a, b);
    lemma_no_quote_concat2(a + b, c);
}

/// A quote-free prefix followed by a single-quoted, quote-free body scans as
/// all-outside.
proof fn lemma_quoted_piece_qd(prefix: Seq<char>, body: Seq<char>)
    requires
        no_quote(prefix),
        no_quote(body),
    ensures
        qd_out(prefix + "'"@ + body + "'"@),
{
    lemma_no_quote_qpo(body);
    lemma_quoted_piece_qd_paired(prefix, body);
}

/// A quote-free prefix followed by a single-quoted, quote-paired body scans
/// as all-outside.
proof fn lemma_quoted_piece_qd_paired(prefix: Seq<char>, body: Seq<char>)
    requires
        no_quote(prefix),
        quote_pairs_ok(body),
    ensures
        qd_out(prefix + "'"@ + body + "'"@),
{
    reveal_strlit("'");
    assert("'"@.len() == 1 && "'"@[0] == '\'');
    assert("'"@ =~= seq!['\'']);
    lemma_quoted_literal_qd(body);
    let lit = seq!['\''] + body + seq!['\''];
    lemma_no_quote_qd_out(prefix);
    lemma_qd_concat(prefix, lit);
    assert(prefix + "'"@ + body + "'"@ =~= prefix + lit);
}

/// The `LIKE` predicate of a quote-free column scans as all-outside.
proof fn lemma_try_like_qd(f: FieldG, v: Seq<char>)
    requires
        no_quote(f.name),
    ensures
        f.spec_try_like(v) is Ok ==> qd_out(f.spec_try_like(v)->Ok_0),
{
    let r = f.spec_try_like(v);
    if r is Ok {
        match f.ty {
            DbType::VARCHAR(_) | DbType::TEXT => {
                let sv = f.ty.spec_sql_safe(v)->Some_0;
                assert(sv == spec_escape(v));
                lemma_escape_quote_pairs(v);
                reveal_strlit(" LIKE '");
                reveal_strlit(" LIKE ");
                reveal_strlit("'");
                assert(" LIKE '"@ =~= " LIKE "@ + "'"@);
                let mid = " LIKE "@;
                assert(no_quote(mid)) by {
                    assert(mid.len() == 6);
                    assert(mid[0] == ' ' && mid[1] == 'L' && mid[2] == 'I' && mid[3] == 'K'
                        && mid[4] == 'E' && mid[5] == ' ');
                }
                lemma_no_quote_concat2(f.name, mid);
                lemma_quoted_piece_qd_paired(f.name + mid, sv);
                assert(r->Ok_0 =~= (f.name + mid) + "'"@ + sv + "'"@);
            },
            DbType::DATE | DbType::TIMESTAMP => {},
            _ => {
                let sv = f.ty.spec_sql_safe(v)->Some_0;
                assert(no_quote(sv)) by {
                    match f.ty {
                        DbType::NUMERIC(len, scale) => {
                            lemma_numeric_checker_no_quote(len, scale, spec_escape(v));
                        },
                        DbType::INTEGER(min, max) => {
                            lemma_integer_checker_no_quote(min, max, spec_escape(v));
                        },
                        _ => {},
                    }
                }
                reveal_strlit("::TEXT LIKE '");
                reveal_strlit("::TEXT LIKE ");
                reveal_strlit("'");
                assert("::TEXT LIKE '"@ =~= "::TEXT LIKE "@ + "'"@);
                let mid = "::TEXT LIKE "@;
                assert(no_quote(mid)) by {
                    assert(mid.len() == 12);
                    assert(mid[0] == ':' && mid[1] == ':' && mid[2] == 'T' && mid[3] == 'E'
                        && mid[4] == 'X' && mid[5] == 'T' && mid[6] == ' ' && mid[7] == 'L'
                        && mid[8] == 'I' && mid[9] == 'K' && mid[10] == 'E' && mid[11] == ' ');
                }
                lemma_no_quote_concat2(f.name, mid);
                lemma_quoted_piece_qd(f.name + mid, sv);
                assert(r->Ok_0 =~= (f.name + mid) + "'"@ + sv + "'"@);
            },
        }
    }
}

/// Joining all-outside parts with a quote-free separator stays all-outside.
proof fn lemma_join_qd(ss: Seq<Seq<char>>, sep: Seq<char>)
    requires
        forall|i: int| 0 <= i < ss.len() ==> qd_out(#[trigger] ss[i]),
        no_quote(sep),
    ensures
        qd_out(spec_join(ss, sep)),
    decreases ss.len(),
{
    if ss.len() == 0 {
    } else if ss.len() == 1 {
        assert(qd_out(ss[0]));
    } else {
        let t = ss.subrange(1, ss.len() as int);
        assert forall|i: int| 0 <= i < t.len() implies qd_out(#[trigger] t[i]) by {
            assert(t[i] == ss[i + 1]);
        }
        lemma_join_qd(t, sep);
        lemma_no_quote_qd_out(sep);
        lemma_qd_concat(sep, spec_join(t, sep));
        lemma_qd_concat(ss[0], sep + spec_join(t, sep));
        assert(ss[0] + sep + spec_join(t, sep) =~= ss[0] + (sep + spec_join(t, sep)));
    }
}

/// Whether every column name the term mentions is free of quotes.
pub open spec fn term_names_ok(t: TermG) -> bool
    decreases t, 1int,
{
    match t {
        TermG::And(cs) => terms_names_ok(cs),
        TermG::Or(cs) => terms_names_ok(cs),
        TermG::Not(inner) => term_names_ok(*inner),
        TermG::Value(f, _, _, _) => no_quote(f.name),
        TermG::Like(f, _) => no_quote(f.name),
        TermG::Denied => true,
    }
}

/// Whether every column name in the list of terms is free of quotes.
pub open spec fn terms_names_ok(cs: Seq<TermG>) -> bool
    decreases cs, 0int,
{
    if cs.len() == 0 {
        true
    } else {
        term_names_ok(cs[0]) && terms_names_ok(cs.subrange(1, cs.len() as int))
    }
}

/// The quote-discipline law for one term: the emitted SQL of a term whose
/// column names hold no quote scans as all-outside — every quote in it
/// either delimits a literal or stands doubled inside one. This is the
/// syntactic-safety core: user data cannot close a literal early.
pub proof fn lemma_emit_quote_discipline(t: TermG, today: Date)
    requires
        term_names_ok(t),
    ensures
        spec_emit(t, today) is Ok ==> qd_out(spec_emit(t, today)->Ok_0),
    decreases t, 1int,
{
    let r = spec_emit(t, today);
    match t {
        TermG::Or(cs) => {
            lemma_emit_oks_quote_discipline(cs, today);
            assert(no_quote(" OR "@)) by {
                reveal_strlit(" OR ");
                let w = " OR "@;
                assert(w.len() == 4);
                assert(w[0] == ' ' && w[1] == 'O' && w[2] == 'R' && w[3] == ' ');
            }
            lemma_emit_list_qd(cs, " OR "@, today);
        },
        TermG::And(cs) => {
            lemma_emit_oks_quote_discipline(cs, today);
            assert(no_quote(" AND "@)) by {
                reveal_strlit(" AND ");
                let w = " AND "@;
                assert(w.len() == 5);
                assert(w[0] == ' ' && w[1] == 'A' && w[2] == 'N' && w[3] == 'D' && w[4] == ' ');
            }
            lemma_emit_list_qd(cs, " AND "@, today);
        },
        TermG::Not(inner) => {
            match *inner {
                TermG::Not(x) => {
                    assert(term_names_ok(*inner));
                    assert(term_names_ok(*x));
                    lemma_emit_quote_discipline(*x, today);
                },
                _ => {
                    assert(term_names_ok(*inner));
                    lemma_emit_quote_discipline(*inner, today);
                    if spec_emit(*inner, today) is Ok {
                        let inner_s = spec_emit(*inner, today)->Ok_0;
                        assert(no_quote("NOT "@)) by {
                            reveal_strlit("NOT ");
                            let w = "NOT "@;
                            assert(w.len() == 4);
                            assert(w[0] == 'N' && w[1] == 'O' && w[2] == 'T' && w[3] == ' ');
                        }
                        lemma_no_quote_qd_out("NOT "@);
                        lemma_qd_concat("NOT "@, inner_s);
                    }
                },
            }
        },
        TermG::Value(f, eq, d, v) => {
            if v.contains('*') {
                lemma_try_like_qd(f, v);
            } else {
                lemma_try_eq_qd(f, eq, d, v, today);
            }
        },
        TermG::Like(f, v) => {
            lemma_try_like_qd(f, v);
        },
        TermG::Denied => {},
    }
}

/// Every surviving child emission of a name-clean list scans as all-outside.
proof fn lemma_emit_oks_quote_discipline(cs: Seq<TermG>, today: Date)
    requires
        terms_names_ok(cs),
    ensures
        forall|i: int|
            0 <= i < spec_emit_oks(cs, today).len() ==> qd_out(
                #[trigger] spec_emit_oks(cs, today)[i],
            ),
    decreases cs, 0int,
{
    if cs.len() == 0 {
    } else {
        let t = cs.subrange(1, cs.len() as int);
        lemma_emit_oks_quote_discipline(t, today);
        assert(term_names_ok(cs[0]));
        lemma_emit_quote_discipline(cs[0], today);
        let head = match spec_emit(cs[0], today) {
            Ok(x) => seq![x],
            Err(_) => Seq::<Seq<char>>::empty(),
        };
        let oks = spec_emit_oks(cs, today);
        assert(oks == head + spec_emit_oks(t, today));
        assert forall|i: int| 0 <= i < oks.len() implies qd_out(#[trigger] oks[i]) by {
            if i < head.len() {
                assert(oks[i] == head[0]);
            } else {
                assert(oks[i] == spec_emit_oks(t, today)[i - head.len()]);
            }
        }
    }
}

/// A connective's emission over all-outside survivors scans as all-outside.
proof fn lemma_emit_list_qd(cs: Seq<TermG>, sep: Seq<char>, today: Date)
    requires
        no_quote(sep),
        forall|i: int|
            0 <= i < spec_emit_oks(cs, today).len() ==> qd_out(
                #[trigger] spec_emit_oks(cs, today)[i],
            ),
    ensures
        spec_emit_list(cs, sep, today) is Ok ==> qd_out(spec_emit_list(cs, sep, today)->Ok_0),
{
    let oks = spec_emit_oks(cs, today);
    if oks.len() == 0 {
    } else if oks.len() == 1 {
        assert(qd_out(oks[0]));
    } else {
        lemma_join_qd(oks, sep);
        assert(no_quote("( "@)) by {
            reveal_strlit("( ");
            let w = "( "@;
            assert(w.len() == 2);
            assert(w[0] == '(' && w[1] == ' ');
        }
        assert(no_quote(" )"@)) by {
            reveal_strlit(" )");
            let w = " )"@;
            assert(w.len() == 2);
            assert(w[0] == ' ' && w[1] == ')');
        }
        lemma_no_quote_qd_out(" )"@);
        lemma_no_quote_qd_out("( "@);
        lemma_qd_concat(spec_join(oks, sep), " )"@);
        lemma_qd_concat("( "@, spec_join(oks, sep) + " )"@);
        assert("( "@ + spec_join(oks, sep) + " )"@ =~= "( "@ + (spec_join(oks, sep) + " )"@));
    }
}



proof fn lemma_terms_names_ok_push(cs: Seq<TermG>, x: TermG)
    ensures
        terms_names_ok(cs.push(x)) == (terms_names_ok(cs) && term_names_ok(x)),
    decreases cs.len(),
{
    let p = cs.push(x);
    if cs.len() == 0 {
        assert(p.len() == 1);
        assert(p[0] == x);
        assert(p.subrange(1, 1) =~= Seq::<TermG>::empty());
        assert(terms_names_ok(p.subrange(1, 1)));
    } else {
        let t = cs.subrange(1, cs.len() as int);
        lemma_terms_names_ok_push(t, x);
        assert(p.subrange(1, p.len() as int) =~= t.push(x));
        assert(p[0] == cs[0]);
    }
}

proof fn lemma_choose_from_member(schema: Seq<FieldG>, i: int, needle: Seq<char>)
    ensures
        crate::parser::spec_choose_from(schema, i, needle) is Some ==> schema.contains(
            crate::parser::spec_choose_from(schema, i, needle)->Some_0,
        ),
    decreases schema.len() - i,
{
    if 0 <= i < schema.len() {
        if schema[i].aliases.contains(needle) {
            assert(schema.contains(schema[i]));
        } else {
            lemma_choose_from_member(schema, i + 1, needle);
        }
    }
}

proof fn lemma_resolve_field_names_ok(
    f: FieldG,
    granted: Set<Seq<char>>,
    like_in_numerics: bool,
    named: bool,
    cmp: CompOp,
    value: Seq<char>,
    like_starting: bool,
    like_ending: bool,
    to_val: Option<Seq<char>>,
)
    requires
        no_quote(f.name),
    ensures
        term_names_ok(
            spec_resolve_field(
                f,
                granted,
                like_in_numerics,
                named,
                cmp,
                value,
                like_starting,
                like_ending,
                to_val,
            ),
        ),
{
    let t = spec_resolve_field(
        f,
        granted,
        like_in_numerics,
        named,
        cmp,
        value,
        like_starting,
        like_ending,
        to_val,
    );
    if granted.contains(f.permission) {
        if like_ending || like_starting {
            let glob = (if like_starting {
                "*"@
            } else {
                Seq::<char>::empty()
            }) + value + (if like_ending {
                "*"@
            } else {
                Seq::<char>::empty()
            });
            assert(term_names_ok(TermG::Like(f, glob)));
            if cmp is NotEqual {
                assert(term_names_ok(TermG::Not(Box::new(TermG::Like(f, glob)))));
            }
        } else if !named {
            if f.spec_is_text() || like_in_numerics {
                assert(term_names_ok(TermG::Like(f, "*"@ + value + "*"@)));
            } else {
                assert(term_names_ok(TermG::Value(f, CompOp::Equal, Direction::From, value)));
            }
        } else if to_val is Some {
            let cs = t->And_0;
            assert(cs.len() == 2);
            assert(term_names_ok(cs[0]));
            assert(term_names_ok(cs[1]));
            let t1 = cs.subrange(1, 2);
            assert(t1.len() == 1 && t1[0] == cs[1]);
            let t2 = t1.subrange(1, 1);
            assert(t2.len() == 0);
            assert(terms_names_ok(t2));
            assert(terms_names_ok(t1));
            assert(terms_names_ok(cs));
        } else if cmp is NotEqual {
            assert(term_names_ok(TermG::Value(f, CompOp::Equal, Direction::From, value)));
            assert(term_names_ok(
                TermG::Not(Box::new(TermG::Value(f, CompOp::Equal, Direction::From, value))),
            ));
        } else {
            assert(term_names_ok(TermG::Value(f, cmp, Direction::From, value)));
        }
    }
}

proof fn lemma_resolve_term_fields_names_ok(
    fields: Seq<FieldG>,
    granted: Set<Seq<char>>,
    like_in_numerics: bool,
    named: bool,
    cmp: CompOp,
    value: Seq<char>,
    like_starting: bool,
    like_ending: bool,
    to_val: Option<Seq<char>>,
)
    requires
        forall|i: int| 0 <= i < fields.len() ==> no_quote(#[trigger] fields[i].name),
    ensures
        terms_names_ok(
            fields.map_values(
                |f: FieldG|
                    spec_resolve_field(
                        f,
                        granted,
                        like_in_numerics,
                        named,
                        cmp,
                        value,
                        like_starting,
                        like_ending,
                        to_val,
                    ),
            ),
        ),
    decreases fields.len(),
{
    let m = fields.map_values(
        |f: FieldG|
            spec_resolve_field(
                f,
                granted,
                like_in_numerics,
                named,
                cmp,
                value,
                like_starting,
                like_ending,
                to_val,
            ),
    );
    if fields.len() == 0 {
        assert(m.len() == 0);
    } else {
        let tail = fields.subrange(1, fields.len() as int);
        assert forall|i: int| 0 <= i < tail.len() implies no_quote(#[trigger] tail[i].name) by {
            assert(tail[i] == fields[i + 1]);
        }
        lemma_resolve_term_fields_names_ok(
            tail,
            granted,
            like_in_numerics,
            named,
            cmp,
            value,
            like_starting,
            like_ending,
            to_val,
        );
        lemma_resolve_field_names_ok(
            fields[0],
            granted,
            like_in_numerics,
            named,
            cmp,
            value,
            like_starting,
            like_ending,
            to_val,
        );
        let mt = tail.map_values(
            |f: FieldG|
                spec_resolve_field(
                    f,
                    granted,
                    like_in_numerics,
                    named,
                    cmp,
                    value,
                    like_starting,
                    like_ending,
                    to_val,
                ),
        );
        assert(m.subrange(1, m.len() as int) =~= mt);
        assert(m[0] == spec_resolve_field(
            fields[0],
            granted,
            like_in_numerics,
            named,
            cmp,
            value,
            like_starting,
            like_ending,
            to_val,
        ));
        assert(terms_names_ok(m));
    }
}

proof fn lemma_resolve_term_names_ok(
    schema: Seq<FieldG>,
    granted: Set<Seq<char>>,
    like_in_numerics: bool,
    name: Option<Seq<char>>,
    cmp: CompOp,
    value: Seq<char>,
    like_starting: bool,
    like_ending: bool,
    to_val: Option<Seq<char>>,
)
    requires
        forall|i: int| 0 <= i < schema.len() ==> no_quote(#[trigger] schema[i].name),
    ensures
        term_names_ok(
            spec_resolve_term(
                schema,
                granted,
                like_in_numerics,
                name,
                cmp,
                value,
                like_starting,
                like_ending,
                to_val,
            ),
        ),
{
    let needle = match name {
        Some(n) => n,
        None => Seq::<char>::empty(),
    };
    let fields = spec_choose_vec(schema, needle);
    assert forall|i: int| 0 <= i < fields.len() implies no_quote(#[trigger] fields[i].name) by {
        match spec_choose_field(schema, needle) {
            Some(f) => {
                lemma_choose_from_member(
                    schema,
                    0,
                    crate::chars::spec_lower_seq(needle),
                );
                assert(fields[i] == f);
                let k = choose|k: int| 0 <= k < schema.len() && schema[k] == f;
            },
            None => {
                assert(fields[i] == schema[i]);
            },
        }
    }
    lemma_resolve_term_fields_names_ok(
        fields,
        granted,
        like_in_numerics,
        name is Some,
        cmp,
        value,
        like_starting,
        like_ending,
        to_val,
    );
}

proof fn lemma_parse_term_names_ok(
    ts: Seq<crate::parser::TokG>,
    i: int,
    schema: Seq<FieldG>,
    granted: Set<Seq<char>>,
    like_in_numerics: bool,
    name: Option<Seq<char>>,
    cmp: CompOp,
)
    requires
        forall|k: int| 0 <= k < schema.len() ==> no_quote(#[trigger] schema[k].name),
    ensures
        crate::parser::spec_parse_term(
            ts,
            i,
            schema,
            granted,
            like_in_numerics,
            name,
            cmp,
        ) is Some ==> term_names_ok(
            (crate::parser::spec_parse_term(
                ts,
                i,
                schema,
                granted,
                like_in_numerics,
                name,
                cmp,
            )->Some_0).0,
        ),
{
    let r = crate::parser::spec_parse_term(ts, i, schema, granted, like_in_numerics, name, cmp);
    if r is Some {
        let ls1 = 0 <= i < ts.len() && ts[i] is Star;
        let le1 = 0 <= i < ts.len() && ts[i] is Caret;
        let p1: int = if ls1 || le1 {
            i + 1
        } else {
            i
        };
        let value = match ts[p1] {
            crate::parser::TokG::Word(w) => w,
            crate::parser::TokG::Quoted(q) => q,
            _ => Seq::<char>::empty(),
        };
        let p2 = p1 + 1;
        let ls2 = ls1 || (p2 < ts.len() && ts[p2] is Dollar);
        let le2 = le1 || (p2 < ts.len() && ts[p2] is Star);
        let p3: int = if p2 < ts.len() && (ts[p2] is Dollar || ts[p2] is Star) {
            p2 + 1
        } else {
            p2
        };
        let has_to = p3 + 1 < ts.len() && ts[p3] is Dash && (ts[p3 + 1] is Word || ts[p3
            + 1] is Quoted);
        let to_val = if has_to {
            match ts[p3 + 1] {
                crate::parser::TokG::Word(w) => Some(w),
                crate::parser::TokG::Quoted(q) => Some(q),
                _ => None,
            }
        } else {
            None
        };
        lemma_resolve_term_names_ok(
            schema,
            granted,
            like_in_numerics,
            name,
            cmp,
            value,
            ls2,
            le2,
            to_val,
        );
    }
}

proof fn lemma_parse_field_names_ok(
    ts: Seq<crate::parser::TokG>,
    i: int,
    schema: Seq<FieldG>,
    granted: Set<Seq<char>>,
    like_in_numerics: bool,
    sign: CompOp,
)
    requires
        forall|k: int| 0 <= k < schema.len() ==> no_quote(#[trigger] schema[k].name),
    ensures
        crate::parser::spec_parse_field(ts, i, schema, granted, like_in_numerics, sign) is Some
            ==> term_names_ok(
            (crate::parser::spec_parse_field(
                ts,
                i,
                schema,
                granted,
                like_in_numerics,
                sign,
            )->Some_0).0,
        ),
{
    let r = crate::parser::spec_parse_field(ts, i, schema, granted, like_in_numerics, sign);
    if r is Some {
        let name = ts[i]->Word_0;
        let op = ts[i + 1]->Cmp_0;
        let (par, j) = crate::parser::spec_bangs(ts, i + 2);
        let not = (sign is NotEqual) != par;
        let eff = if not {
            op.spec_negate()
        } else {
            op
        };
        lemma_parse_term_names_ok(ts, j, schema, granted, like_in_numerics, Some(name), eff);
    }
}

proof fn lemma_parse_expr_names_ok(
    ts: Seq<crate::parser::TokG>,
    i: int,
    schema: Seq<FieldG>,
    granted: Set<Seq<char>>,
    like_in_numerics: bool,
    acc: Seq<TermG>,
    or: bool,
    sign: CompOp,
)
    requires
        forall|k: int| 0 <= k < schema.len() ==> no_quote(#[trigger] schema[k].name),
        terms_names_ok(acc),
    ensures
        crate::parser::spec_parse_expr(
            ts,
            i,
            schema,
            granted,
            like_in_numerics,
            acc,
            or,
            sign,
        ) is Some ==> term_names_ok(
            (crate::parser::spec_parse_expr(
                ts,
                i,
                schema,
                granted,
                like_in_numerics,
                acc,
                or,
                sign,
            )->Some_0).0,
        ),
    decreases ts.len() - i, 2int,
{
    let r = crate::parser::spec_parse_expr(ts, i, schema, granted, like_in_numerics, acc, or, sign);
    if r is Some {
        if i < 0 {
        } else if i >= ts.len() || ts[i] is RPar || ts[i] is Semi {
        } else if ts[i] is AndOp {
            lemma_parse_expr_names_ok(
                ts,
                i + 1,
                schema,
                granted,
                like_in_numerics,
                acc,
                false,
                sign,
            );
        } else if ts[i] is OrOp {
            lemma_parse_expr_names_ok(ts, i + 1, schema, granted, like_in_numerics, acc, true, sign);
        } else if ts[i] is Bang || ts[i] is NotKw {
            lemma_parse_expr_names_ok(
                ts,
                i + 1,
                schema,
                granted,
                like_in_numerics,
                acc,
                or,
                sign.spec_negate(),
            );
        } else if ts[i] is LPar {
            let sub = crate::parser::spec_parse_expr(
                ts,
                i + 1,
                schema,
                granted,
                like_in_numerics,
                Seq::empty(),
                false,
                CompOp::Equal,
            );
            assert(terms_names_ok(Seq::<TermG>::empty()));
            lemma_parse_expr_names_ok(
                ts,
                i + 1,
                schema,
                granted,
                like_in_numerics,
                Seq::empty(),
                false,
                CompOp::Equal,
            );
            match sub {
                None => {},
                Some((t, j)) => {
                    if j <= i || j >= ts.len() || !(ts[j] is RPar) {
                    } else {
                        lemma_terms_names_ok_push(acc, t);
                        lemma_parse_expr_names_ok(
                            ts,
                            j + 1,
                            schema,
                            granted,
                            like_in_numerics,
                            acc.push(t),
                            or,
                            sign,
                        );
                    }
                },
            }
        } else if ts[i] is Word && i + 1 < ts.len() && ts[i + 1] is Cmp {
            let sub = crate::parser::spec_parse_field(
                ts,
                i,
                schema,
                granted,
                like_in_numerics,
                sign,
            );
            lemma_parse_field_names_ok(ts, i, schema, granted, like_in_numerics, sign);
            match sub {
                None => {},
                Some((t, j)) => {
                    if j <= i {
                    } else {
                        lemma_terms_names_ok_push(acc, t);
                        lemma_parse_expr_names_ok(
                            ts,
                            j,
                            schema,
                            granted,
                            like_in_numerics,
                            acc.push(t),
                            or,
                            sign,
                        );
                    }
                },
            }
        } else {
            let sub = crate::parser::spec_parse_term(
                ts,
                i,
                schema,
                granted,
                like_in_numerics,
                None,
                sign,
            );
            lemma_parse_term_names_ok(ts, i, schema, granted, like_in_numerics, None, sign);
            match sub {
                None => {},
                Some((t, j)) => {
                    if j <= i {
                    } else {
                        lemma_terms_names_ok_push(acc, t);
                        lemma_parse_expr_names_ok(
                            ts,
                            j,
                            schema,
                            granted,
                            like_in_numerics,
                            acc.push(t),
                            or,
                            sign,
                        );
                    }
                },
            }
        }
    }
}

/// The fragment-safety law: when every configured column name is free of
/// quotes, the WHERE fragment of any successfully parsed and emitted query
/// is quote-disciplined — every single quote in it either delimits a
/// literal, or stands doubled inside one. Escaped user values and coerced
/// numbers and dates can never close a literal early or smuggle a quote
/// outside one.
pub proof fn lemma_fragment_quote_discipline(
    q: Seq<char>,
    schema: Seq<FieldG>,
    granted: Set<Seq<char>>,
    like_in_numerics: bool,
    today: Date,
)
    requires
        forall|k: int| 0 <= k < schema.len() ==> no_quote(#[trigger] schema[k].name),
    ensures
        ({
            let parsed = crate::parser::spec_query(q, schema, granted, like_in_numerics);
            parsed is Some ==> (spec_emit((parsed->Some_0).0, today) is Ok ==> qd_out(
                spec_emit((parsed->Some_0).0, today)->Ok_0,
            ))
        }),
{
    let parsed = crate::parser::spec_query(q, schema, granted, like_in_numerics);
    if parsed is Some {
        let t = (parsed->Some_0).0;
        assert(term_names_ok(t)) by {
            match crate::parser::spec_tokenize(q) {
                None => {},
                Some(ts) => {
                    if ts.len() == 0 {
                        assert(terms_names_ok(Seq::<TermG>::empty()));
                    } else if ts[0] is Semi {
                        assert(terms_names_ok(Seq::<TermG>::empty()));
                    } else {
                        assert(terms_names_ok(Seq::<TermG>::empty()));
                        lemma_parse_expr_names_ok(
                            ts,
                            0,
                            schema,
                            granted,
                            like_in_numerics,
                            Seq::empty(),
                            false,
                            CompOp::Equal,
                        );
                    }
                },
            }
        }
        lemma_emit_quote_discipline(t, today);
    }
}



proof fn lemma_quote_end_finds(s: Seq<char>, i: int, e: int, q: char)
    requires
        0 <= i <= e < s.len(),
        forall|j: int| i <= j < e ==> s[j] != q,
        s[e] == q,
    ensures
        crate::parser::spec_quote_end(s, i, q) == e,
    decreases e - i,
{
    if i < e {
        lemma_quote_end_finds(s, i + 1, e, q);
    }
}

/// The quote-style law: a value wrapped in single quotes and the same value
/// wrapped in double quotes tokenize identically — one quoted token holding
/// exactly the inner characters — so the IR built from either is the same.
pub proof fn lemma_quote_styles_equal(c: Seq<char>)
    requires
        forall|j: int| 0 <= j < c.len() ==> c[j] != '\'' && c[j] != '"',
    ensures
        crate::parser::spec_tokenize(seq!['\''] + c + seq!['\'']) == Some(
            seq![crate::parser::TokG::Quoted(c)],
        ),
        crate::parser::spec_tokenize(seq!['"'] + c + seq!['"']) == Some(
            seq![crate::parser::TokG::Quoted(c)],
        ),
{
    lemma_wrapped_tokenize(c, '\'');
    lemma_wrapped_tokenize(c, '"');
}

proof fn lemma_wrapped_tokenize(c: Seq<char>, q: char)
    requires
        q == '\'' || q == '"',
        forall|j: int| 0 <= j < c.len() ==> c[j] != q,
    ensures
        crate::parser::spec_tokenize(seq![q] + c + seq![q]) == Some(
            seq![crate::parser::TokG::Quoted(c)],
        ),
{
    let s = seq![q] + c + seq![q];
    let n = s.len() as int;
    assert(n == c.len() + 2);
    assert(s[0] == q);
    assert(s[n - 1] == q);
    assert(forall|j: int| 1 <= j < n - 1 ==> s[j] == c[j - 1]);
    assert(!crate::chars::spec_is_ws(s[0]));
    lemma_quote_end_finds(s, 1, n - 1, q);
    assert(crate::parser::spec_next_token(s, 0) == Some(
        (crate::parser::TokG::Quoted(s.subrange(1, n - 1)), n),
    ));
    assert(s.subrange(1, n - 1) =~= c);
    assert(crate::parser::spec_tokenize_from(s, n) == Some(Seq::<crate::parser::TokG>::empty()));
    assert(crate::parser::spec_tokenize_from(s, 0) == Some(
        seq![crate::parser::TokG::Quoted(c)] + Seq::<crate::parser::TokG>::empty(),
    ));
    assert(seq![crate::parser::TokG::Quoted(c)] + Seq::<crate::parser::TokG>::empty()
        =~= seq![crate::parser::TokG::Quoted(c)]);
}



proof fn lemma_digits_end_shift(pre: Seq<char>, s: Seq<char>, i: int)
    requires
        0 <= i <= s.len(),
    ensures
        crate::num::spec_digits_end(pre + s, pre.len() + i) == pre.len()
            + crate::num::spec_digits_end(s, i),
    decreases s.len() - i,
{
    let w = pre + s;
    let p = pre.len() as int;
    if i < s.len() && crate::chars::spec_is_digit(s[i]) {
        assert(w[p + i] == s[i]);
        lemma_digits_end_shift(pre, s, i + 1);
    } else {
        if i < s.len() {
            assert(w[p + i] == s[i]);
        }
    }
}

proof fn lemma_word_end_shift(pre: Seq<char>, s: Seq<char>, i: int)
    requires
        0 <= i <= s.len(),
    ensures
        crate::parser::spec_word_end(pre + s, pre.len() + i) == pre.len()
            + crate::parser::spec_word_end(s, i),
    decreases s.len() - i,
{
    let w = pre + s;
    let p = pre.len() as int;
    if i < s.len() && crate::parser::spec_is_word_char(s[i]) {
        assert(w[p + i] == s[i]);
        lemma_word_end_shift(pre, s, i + 1);
    } else {
        if i < s.len() {
            assert(w[p + i] == s[i]);
        }
    }
}

proof fn lemma_quote_end_shift(pre: Seq<char>, s: Seq<char>, i: int, q: char)
    requires
        0 <= i <= s.len(),
    ensures
        crate::parser::spec_quote_end(pre + s, pre.len() + i, q) == pre.len()
            + crate::parser::spec_quote_end(s, i, q),
    decreases s.len() - i,
{
    let w = pre + s;
    let p = pre.len() as int;
    if i < s.len() {
        assert(w[p + i] == s[i]);
        if s[i] != q {
            lemma_quote_end_shift(pre, s, i + 1, q);
        }
    }
}

proof fn lemma_iso_end_shift(pre: Seq<char>, s: Seq<char>, i: int)
    requires
        0 <= i <= s.len(),
    ensures
        crate::parser::spec_iso_end(pre + s, pre.len() + i) == (match crate::parser::spec_iso_end(
            s,
            i,
        ) {
            Some(e) => Some(pre.len() + e),
            None => None::<int>,
        }),
{
    let w = pre + s;
    let p = pre.len() as int;
    lemma_digits_end_shift(pre, s, i);
    crate::num::lemma_digits_end_bounds(s, i);
    let a = crate::num::spec_digits_end(s, i);
    if a == i + 4 && a < s.len() && s[a] == '-' {
        assert(w[p + a] == s[a]);
        lemma_digits_end_shift(pre, s, a + 1);
        crate::num::lemma_digits_end_bounds(s, a + 1);
        let b = crate::num::spec_digits_end(s, a + 1);
        if (b == a + 2 || b == a + 3) && b < s.len() && s[b] == '-' {
            assert(w[p + b] == s[b]);
            lemma_digits_end_shift(pre, s, b + 1);
        }
    } else {
        if a < s.len() {
            assert(w[p + a] == s[a]);
        }
    }
}

proof fn lemma_next_token_shift(pre: Seq<char>, s: Seq<char>, i: int)
    requires
        0 <= i < s.len(),
    ensures
        crate::parser::spec_next_token(pre + s, pre.len() + i) == (
        match crate::parser::spec_next_token(s, i) {
            Some((t, k)) => Some((t, pre.len() + k)),
            None => None::<(crate::parser::TokG, int)>,
        }),
{
    let w = pre + s;
    let p = pre.len() as int;
    assert(w[p + i] == s[i]);
    if i + 1 < s.len() {
        assert(w[p + i + 1] == s[i + 1]);
    }
    let c = s[i];
    if c == '(' || c == ')' || c == ';' || c == ',' || c == '^' || c == '$' || c == '*' || c
        == '-' {
    } else if c == '=' || c == '!' || c == '>' || c == '<' || c == '&' || c == '|' {
        assert(p + i + 1 < w.len() <==> i + 1 < s.len());
    } else if c == '\'' || c == '"' {
        lemma_quote_end_shift(pre, s, i + 1, c);
        let e = crate::parser::spec_quote_end(s, i + 1, c);
        lemma_quote_end_bounds(s, i + 1, c);
        if e < s.len() {
            assert(w.subrange(p + i + 1, p + e) =~= s.subrange(i + 1, e));
        }
    } else {
        lemma_iso_end_shift(pre, s, i);
        let iso = crate::parser::spec_iso_end(s, i);
        if crate::chars::spec_is_digit(c) && iso is Some {
            let e = iso->Some_0;
            lemma_iso_end_bounds(s, i);
            assert(w.subrange(p + i, p + e) =~= s.subrange(i, e));
        } else {
            lemma_word_end_shift(pre, s, i);
            let e = crate::parser::spec_word_end(s, i);
            lemma_word_end_bounds_pub(s, i);
            assert(w.subrange(p + i, p + e) =~= s.subrange(i, e));
        }
    }
}

proof fn lemma_quote_end_bounds(s: Seq<char>, i: int, q: char)
    requires
        0 <= i <= s.len(),
    ensures
        i <= crate::parser::spec_quote_end(s, i, q) <= s.len(),
    decreases s.len() - i,
{
    if i < s.len() && s[i] != q {
        lemma_quote_end_bounds(s, i + 1, q);
    }
}

proof fn lemma_word_end_bounds_pub(s: Seq<char>, i: int)
    requires
        0 <= i <= s.len(),
    ensures
        i <= crate::parser::spec_word_end(s, i) <= s.len(),
    decreases s.len() - i,
{
    if i < s.len() && crate::parser::spec_is_word_char(s[i]) {
        lemma_word_end_bounds_pub(s, i + 1);
    }
}

proof fn lemma_iso_end_bounds(s: Seq<char>, i: int)
    requires
        0 <= i <= s.len(),
    ensures
        crate::parser::spec_iso_end(s, i) is Some ==> i <= crate::parser::spec_iso_end(
            s,
            i,
        )->Some_0 <= s.len(),
{
    crate::num::lemma_digits_end_bounds(s, i);
    let a = crate::num::spec_digits_end(s, i);
    if a == i + 4 && a < s.len() && s[a] == '-' {
        crate::num::lemma_digits_end_bounds(s, a + 1);
        let b = crate::num::spec_digits_end(s, a + 1);
        if (b == a + 2 || b == a + 3) && b < s.len() && s[b] == '-' {
            crate::num::lemma_digits_end_bounds(s, b + 1);
        }
    }
}

proof fn lemma_tokenize_from_shift(pre: Seq<char>, s: Seq<char>, i: int)
    requires
        0 <= i <= s.len(),
    ensures
        crate::parser::spec_tokenize_from(pre + s, pre.len() + i)
            == crate::parser::spec_tokenize_from(s, i),
    decreases s.len() - i,
{
    let w = pre + s;
    let p = pre.len() as int;
    if i >= s.len() {
    } else {
        assert(w[p + i] == s[i]);
        if crate::chars::spec_is_ws(s[i]) {
            lemma_tokenize_from_shift(pre, s, i + 1);
        } else {
            lemma_next_token_shift(pre, s, i);
            match crate::parser::spec_next_token(s, i) {
                None => {},
                Some((t, k)) => {
                    if k <= i || k > s.len() {
                        assert(p + k <= p + i || p + k > w.len());
                    } else {
                        lemma_tokenize_from_shift(pre, s, k);
                    }
                },
            }
        }
    }
}

proof fn lemma_bangs_shift(pre: Seq<crate::parser::TokG>, ts: Seq<crate::parser::TokG>, i: int)
    requires
        0 <= i <= ts.len(),
    ensures
        crate::parser::spec_bangs(pre + ts, pre.len() + i) == ({
            let (b, j) = crate::parser::spec_bangs(ts, i);
            (b, pre.len() + j)
        }),
    decreases ts.len() - i,
{
    let w = pre + ts;
    let p = pre.len() as int;
    if i < ts.len() {
        assert(w[p + i] == ts[i]);
        if ts[i] is Bang || ts[i] is NotKw {
            lemma_bangs_shift(pre, ts, i + 1);
        }
    }
}

proof fn lemma_parse_term_shift(
    pre: Seq<crate::parser::TokG>,
    ts: Seq<crate::parser::TokG>,
    i: int,
    schema: Seq<FieldG>,
    granted: Set<Seq<char>>,
    like_in_numerics: bool,
    name: Option<Seq<char>>,
    cmp: CompOp,
)
    requires
        0 <= i <= ts.len(),
    ensures
        crate::parser::spec_parse_term(
            pre + ts,
            pre.len() + i,
            schema,
            granted,
            like_in_numerics,
            name,
            cmp,
        ) == (match crate::parser::spec_parse_term(
            ts,
            i,
            schema,
            granted,
            like_in_numerics,
            name,
            cmp,
        ) {
            Some((t, j)) => Some((t, pre.len() + j)),
            None => None::<(TermG, int)>,
        }),
{
    let w = pre + ts;
    let p = pre.len() as int;
    assert(forall|k: int| 0 <= k < ts.len() ==> w[p + k] == ts[k]);
    assert(w.len() == p + ts.len());
}

proof fn lemma_parse_field_shift(
    pre: Seq<crate::parser::TokG>,
    ts: Seq<crate::parser::TokG>,
    i: int,
    schema: Seq<FieldG>,
    granted: Set<Seq<char>>,
    like_in_numerics: bool,
    sign: CompOp,
)
    requires
        0 <= i <= ts.len(),
    ensures
        crate::parser::spec_parse_field(
            pre + ts,
            pre.len() + i,
            schema,
            granted,
            like_in_numerics,
            sign,
        ) == (match crate::parser::spec_parse_field(
            ts,
            i,
            schema,
            granted,
            like_in_numerics,
            sign,
        ) {
            Some((t, j)) => Some((t, pre.len() + j)),
            None => None::<(TermG, int)>,
        }),
{
    let w = pre + ts;
    let p = pre.len() as int;
    assert(forall|k: int| 0 <= k < ts.len() ==> w[p + k] == ts[k]);
    assert(w.len() == p + ts.len());
    if 0 <= i && i + 1 < ts.len() && ts[i] is Word && ts[i + 1] is Cmp {
        lemma_bangs_shift(pre, ts, i + 2);
        let (par, j) = crate::parser::spec_bangs(pre + ts, p + i + 2);
        let (par0, j0) = crate::parser::spec_bangs(ts, i + 2);
        lemma_bangs_bounds(ts, i + 2);
        if j0 <= i + 1 || j0 > ts.len() {
        } else {
            let name = ts[i]->Word_0;
            let op = ts[i + 1]->Cmp_0;
            let not = (sign is NotEqual) != par0;
            let eff = if not {
                op.spec_negate()
            } else {
                op
            };
            lemma_parse_term_shift(
                pre,
                ts,
                j0,
                schema,
                granted,
                like_in_numerics,
                Some(name),
                eff,
            );
        }
    }
}

proof fn lemma_bangs_bounds(ts: Seq<crate::parser::TokG>, i: int)
    requires
        0 <= i <= ts.len(),
    ensures
        ({
            let (b, j) = crate::parser::spec_bangs(ts, i);
            i <= j <= ts.len()
        }),
    decreases ts.len() - i,
{
    if i < ts.len() && (ts[i] is Bang || ts[i] is NotKw) {
        lemma_bangs_bounds(ts, i + 1);
    }
}

#[verifier::rlimit(100)]
#[verifier::spinoff_prover]
proof fn lemma_parse_expr_shift(
    pre: Seq<crate::parser::TokG>,
    ts: Seq<crate::parser::TokG>,
    i: int,
    schema: Seq<FieldG>,
    granted: Set<Seq<char>>,
    like_in_numerics: bool,
    acc: Seq<TermG>,
    or: bool,
    sign: CompOp,
)
    requires
        0 <= i <= ts.len(),
    ensures
        crate::parser::spec_parse_expr(
            pre + ts,
            pre.len() + i,
            schema,
            granted,
            like_in_numerics,
            acc,
            or,
            sign,
        ) == (match crate::parser::spec_parse_expr(
            ts,
            i,
            schema,
            granted,
            like_in_numerics,
            acc,
            or,
            sign,
        ) {
            Some((t, j)) => Some((t, pre.len() + j)),
            None => None::<(TermG, int)>,
        }),
    decreases ts.len() - i, 2int,
{
    let w = pre + ts;
    let p = pre.len() as int;
    assert(forall|k: int| 0 <= k < ts.len() ==> w[p + k] == ts[k]);
    assert(w.len() == p + ts.len());
    if i >= ts.len() || ts[i] is RPar || ts[i] is Semi {
    } else if ts[i] is AndOp {
        lemma_parse_expr_shift(pre, ts, i + 1, schema, granted, like_in_numerics, acc, false, sign);
    } else if ts[i] is OrOp {
        lemma_parse_expr_shift(pre, ts, i + 1, schema, granted, like_in_numerics, acc, true, sign);
    } else if ts[i] is Bang || ts[i] is NotKw {
        lemma_parse_expr_shift(
            pre,
            ts,
            i + 1,
            schema,
            granted,
            like_in_numerics,
            acc,
            or,
            sign.spec_negate(),
        );
    } else if ts[i] is LPar {
        lemma_parse_expr_shift(
            pre,
            ts,
            i + 1,
            schema,
            granted,
            like_in_numerics,
            Seq::empty(),
            false,
            CompOp::Equal,
        );
        lemma_parse_expr_bounds(ts, i + 1, schema, granted, like_in_numerics, Seq::empty(), false, CompOp::Equal);
        match crate::parser::spec_parse_expr(
            ts,
            i + 1,
            schema,
            granted,
            like_in_numerics,
            Seq::empty(),
            false,
            CompOp::Equal,
        ) {
            None => {},
            Some((sub, j)) => {
                if j <= i || j >= ts.len() || !(ts[j] is RPar) {
                } else {
                    lemma_parse_expr_shift(
                        pre,
                        ts,
                        j + 1,
                        schema,
                        granted,
                        like_in_numerics,
                        acc.push(sub),
                        or,
                        sign,
                    );
                }
            },
        }
    } else if ts[i] is Word && i + 1 < ts.len() && ts[i + 1] is Cmp {
        lemma_parse_field_shift(pre, ts, i, schema, granted, like_in_numerics, sign);
        lemma_parse_field_bounds(ts, i, schema, granted, like_in_numerics, sign);
        match crate::parser::spec_parse_field(ts, i, schema, granted, like_in_numerics, sign) {
            None => {},
            Some((t, j)) => {
                if j <= i {
                } else {
                    lemma_parse_expr_shift(
                        pre,
                        ts,
                        j,
                        schema,
                        granted,
                        like_in_numerics,
                        acc.push(t),
                        or,
                        sign,
                    );
                }
            },
        }
    } else {
        lemma_parse_term_shift(pre, ts, i, schema, granted, like_in_numerics, None, sign);
        lemma_parse_term_bounds(ts, i, schema, granted, like_in_numerics, None, sign);
        match crate::parser::spec_parse_term(ts, i, schema, granted, like_in_numerics, None, sign) {
            None => {},
            Some((t, j)) => {
                if j <= i {
                } else {
                    lemma_parse_expr_shift(
                        pre,
                        ts,
                        j,
                        schema,
                        granted,
                        like_in_numerics,
                        acc.push(t),
                        or,
                        sign,
                    );
                }
            },
        }
    }
}

proof fn lemma_parse_term_bounds(
    ts: Seq<crate::parser::TokG>,
    i: int,
    schema: Seq<FieldG>,
    granted: Set<Seq<char>>,
    like_in_numerics: bool,
    name: Option<Seq<char>>,
    cmp: CompOp,
)
    requires
        0 <= i <= ts.len(),
    ensures
        crate::parser::spec_parse_term(ts, i, schema, granted, like_in_numerics, name, cmp)
            is Some ==> i < (crate::parser::spec_parse_term(
            ts,
            i,
            schema,
            granted,
            like_in_numerics,
            name,
            cmp,
        )->Some_0).1 <= ts.len(),
{
}

proof fn lemma_parse_field_bounds(
    ts: Seq<crate::parser::TokG>,
    i: int,
    schema: Seq<FieldG>,
    granted: Set<Seq<char>>,
    like_in_numerics: bool,
    sign: CompOp,
)
    requires
        0 <= i <= ts.len(),
    ensures
        crate::parser::spec_parse_field(ts, i, schema, granted, like_in_numerics, sign) is Some
            ==> i < (crate::parser::spec_parse_field(
            ts,
            i,
            schema,
            granted,
            like_in_numerics,
            sign,
        )->Some_0).1 <= ts.len(),
{
    if 0 <= i && i + 1 < ts.len() && ts[i] is Word && ts[i + 1] is Cmp {
        lemma_bangs_bounds(ts, i + 2);
        let (par, j) = crate::parser::spec_bangs(ts, i + 2);
        if i + 1 < j <= ts.len() {
            let name = ts[i]->Word_0;
            let op = ts[i + 1]->Cmp_0;
            let not = (sign is NotEqual) != par;
            let eff = if not {
                op.spec_negate()
            } else {
                op
            };
            lemma_parse_term_bounds(ts, j, schema, granted, like_in_numerics, Some(name), eff);
        }
    }
}

proof fn lemma_parse_expr_bounds(
    ts: Seq<crate::parser::TokG>,
    i: int,
    schema: Seq<FieldG>,
    granted: Set<Seq<char>>,
    like_in_numerics: bool,
    acc: Seq<TermG>,
    or: bool,
    sign: CompOp,
)
    requires
        0 <= i <= ts.len(),
    ensures
        crate::parser::spec_parse_expr(
            ts,
            i,
            schema,
            granted,
            like_in_numerics,
            acc,
            or,
            sign,
        ) is Some ==> i <= (crate::parser::spec_parse_expr(
            ts,
            i,
            schema,
            granted,
            like_in_numerics,
            acc,
            or,
            sign,
        )->Some_0).1 <= ts.len(),
    decreases ts.len() - i, 2int,
{
    if i >= ts.len() || ts[i] is RPar || ts[i] is Semi {
    } else if ts[i] is AndOp {
        lemma_parse_expr_bounds(ts, i + 1, schema, granted, like_in_numerics, acc, false, sign);
    } else if ts[i] is OrOp {
        lemma_parse_expr_bounds(ts, i + 1, schema, granted, like_in_numerics, acc, true, sign);
    } else if ts[i] is Bang || ts[i] is NotKw {
        lemma_parse_expr_bounds(
            ts,
            i + 1,
            schema,
            granted,
            like_in_numerics,
            acc,
            or,
            sign.spec_negate(),
        );
    } else if ts[i] is LPar {
        lemma_parse_expr_bounds(
            ts,
            i + 1,
            schema,
            granted,
            like_in_numerics,
            Seq::empty(),
            false,
            CompOp::Equal,
        );
        match crate::parser::spec_parse_expr(
            ts,
            i + 1,
            schema,
            granted,
            like_in_numerics,
            Seq::empty(),
            false,
            CompOp::Equal,
        ) {
            None => {},
            Some((sub, j)) => {
                if j <= i || j >= ts.len() || !(ts[j] is RPar) {
                } else {
                    lemma_parse_expr_bounds(
                        ts,
                        j + 1,
                        schema,
                        granted,
                        like_in_numerics,
                        acc.push(sub),
                        or,
                        sign,
                    );
                }
            },
        }
    } else if ts[i] is Word && i + 1 < ts.len() && ts[i + 1] is Cmp {
        lemma_parse_field_bounds(ts, i, schema, granted, like_in_numerics, sign);
        match crate::parser::spec_parse_field(ts, i, schema, granted, like_in_numerics, sign) {
            None => {},
            Some((t, j)) => {
                if j <= i {
                } else {
                    lemma_parse_expr_bounds(
                        ts,
                        j,
                        schema,
                        granted,
                        like_in_numerics,
                        acc.push(t),
                        or,
                        sign,
                    );
                }
            },
        }
    } else {
        lemma_parse_term_bounds(ts, i, schema, granted, like_in_numerics, None, sign);
        match crate::parser::spec_parse_term(ts, i, schema, granted, like_in_numerics, None, sign) {
            None => {},
            Some((t, j)) => {
                if j <= i {
                } else {
                    lemma_parse_expr_bounds(
                        ts,
                        j,
                        schema,
                        granted,
                        like_in_numerics,
                        acc.push(t),
                        or,
                        sign,
                    );
                }
            },
        }
    }
}

proof fn lemma_parse_sort_shift(
    pre: Seq<crate::parser::TokG>,
    ts: Seq<crate::parser::TokG>,
    i: int,
    schema: Seq<FieldG>,
    desc: bool,
)
    requires
        0 <= i <= ts.len(),
    ensures
        crate::parser::spec_parse_sort(pre + ts, pre.len() + i, schema, desc)
            == crate::parser::spec_parse_sort(ts, i, schema, desc),
    decreases ts.len() - i,
{
    let w = pre + ts;
    let p = pre.len() as int;
    if i < ts.len() {
        assert(w[p + i] == ts[i]);
        if ts[i] is Caret {
            lemma_parse_sort_shift(pre, ts, i + 1, schema, true);
        } else if ts[i] is Word {
            match spec_choose_field(schema, ts[i]->Word_0) {
                Some(_) => {
                    lemma_parse_sort_shift(pre, ts, i + 1, schema, false);
                },
                None => {
                    lemma_parse_sort_shift(pre, ts, i + 1, schema, desc);
                },
            }
        } else {
            lemma_parse_sort_shift(pre, ts, i + 1, schema, desc);
        }
    }
}

/// The double-negation law over query texts: prefixing a query with `!!`
/// parses and resolves to exactly the same IR and sort list as the query
/// itself, whenever the rest of the query does not begin with `=` (which
/// would fuse with the second `!` into a comparator).
pub proof fn lemma_double_negation_query(
    q: Seq<char>,
    schema: Seq<FieldG>,
    granted: Set<Seq<char>>,
    like_in_numerics: bool,
)
    requires
        q.len() == 0 || q[0] != '=',
    ensures
        crate::parser::spec_query(seq!['!', '!'] + q, schema, granted, like_in_numerics)
            == crate::parser::spec_query(q, schema, granted, like_in_numerics),
{
    let s = seq!['!', '!'] + q;
    assert(s.len() == q.len() + 2);
    assert(s[0] == '!' && s[1] == '!');
    assert(forall|k: int| 0 <= k < q.len() ==> s[k + 2] == q[k]);
    assert(!crate::chars::spec_is_ws(s[0]));
    assert(crate::parser::spec_next_token(s, 0) == Some((crate::parser::TokG::Bang, 1int)));
    assert(!crate::chars::spec_is_ws(s[1]));
    assert(crate::parser::spec_next_token(s, 1) == Some((crate::parser::TokG::Bang, 2int))) by {
        if 2 < s.len() {
            assert(s[2] == q[0]);
            assert(s[2] != '=');
        }
    }
    lemma_tokenize_from_shift(seq!['!', '!'], q, 0);
    assert(crate::parser::spec_tokenize_from(s, 2) == crate::parser::spec_tokenize(q));
    assert(crate::parser::spec_tokenize_from(s, 1) == (
    match crate::parser::spec_tokenize_from(s, 2) {
        None => None::<Seq<crate::parser::TokG>>,
        Some(ts2) => Some(seq![crate::parser::TokG::Bang] + ts2),
    }));
    assert(crate::parser::spec_tokenize_from(s, 0) == (
    match crate::parser::spec_tokenize_from(s, 1) {
        None => None::<Seq<crate::parser::TokG>>,
        Some(ts1) => Some(seq![crate::parser::TokG::Bang] + ts1),
    }));
    match crate::parser::spec_tokenize(q) {
        None => {
            assert(crate::parser::spec_tokenize(s) is None);
        },
        Some(ts) => {
            let bb = seq![crate::parser::TokG::Bang, crate::parser::TokG::Bang];
            assert(crate::parser::spec_tokenize(s) == Some(
                seq![crate::parser::TokG::Bang] + (seq![crate::parser::TokG::Bang] + ts),
            ));
            let full = seq![crate::parser::TokG::Bang] + (seq![crate::parser::TokG::Bang] + ts);
            assert(full =~= bb + ts);
            lemma_parse_query_bang_bang(ts, schema, granted, like_in_numerics);
            assert(crate::parser::spec_parse_query(bb + ts, schema, granted, like_in_numerics)
                == crate::parser::spec_parse_query(ts, schema, granted, like_in_numerics));
            assert(crate::parser::spec_tokenize(s)->Some_0 == bb + ts);
        },
    }
}

/// Two leading negation tokens leave the parse of a token list unchanged.
proof fn lemma_parse_query_bang_bang(
    ts: Seq<crate::parser::TokG>,
    schema: Seq<FieldG>,
    granted: Set<Seq<char>>,
    like_in_numerics: bool,
)
    ensures
        crate::parser::spec_parse_query(
            seq![crate::parser::TokG::Bang, crate::parser::TokG::Bang] + ts,
            schema,
            granted,
            like_in_numerics,
        ) == crate::parser::spec_parse_query(ts, schema, granted, like_in_numerics),
{
    let bb = seq![crate::parser::TokG::Bang, crate::parser::TokG::Bang];
    let w = bb + ts;
    assert(w.len() == ts.len() + 2);
    assert(w[0] is Bang && w[1] is Bang);
    assert(forall|k: int| 0 <= k < ts.len() ==> w[k + 2] == ts[k]);
    let e0 = crate::parser::spec_parse_expr(
        w,
        0,
        schema,
        granted,
        like_in_numerics,
        Seq::empty(),
        false,
        CompOp::Equal,
    );
    assert(e0 == crate::parser::spec_parse_expr(
        w,
        1,
        schema,
        granted,
        like_in_numerics,
        Seq::empty(),
        false,
        CompOp::Equal.spec_negate(),
    ));
    assert(e0 == crate::parser::spec_parse_expr(
        w,
        2,
        schema,
        granted,
        like_in_numerics,
        Seq::empty(),
        false,
        CompOp::Equal.spec_negate().spec_negate(),
    ));
    assert(CompOp::Equal.spec_negate().spec_negate() == CompOp::Equal);
    lemma_parse_expr_shift(
        bb,
        ts,
        0,
        schema,
        granted,
        like_in_numerics,
        Seq::empty(),
        false,
        CompOp::Equal,
    );
    let inner = crate::parser::spec_parse_expr(
        ts,
        0,
        schema,
        granted,
        like_in_numerics,
        Seq::empty(),
        false,
        CompOp::Equal,
    );
    lemma_parse_expr_bounds(
        ts,
        0,
        schema,
        granted,
        like_in_numerics,
        Seq::empty(),
        false,
        CompOp::Equal,
    );
    match inner {
        None => {
            assert(crate::parser::spec_parse_query(w, schema, granted, like_in_numerics)
                is None);
            if ts.len() == 0 {
                assert(false) by {
                    assert(crate::parser::spec_parse_expr(
                        ts,
                        0,
                        schema,
                        granted,
                        like_in_numerics,
                        Seq::empty(),
                        false,
                        CompOp::Equal,
                    ) is Some);
                }
            } else if ts[0] is Semi {
                assert(false) by {
                    assert(crate::parser::spec_parse_expr(
                        ts,
                        0,
                        schema,
                        granted,
                        like_in_numerics,
                        Seq::empty(),
                        false,
                        CompOp::Equal,
                    ) is Some);
                }
            }
        },
        Some((t, j)) => {
            assert(e0 == Some((t, j + 2)));
            if ts.len() == 0 {
                assert(t == TermG::And(Seq::<TermG>::empty()));
                assert(j == 0);
                assert(crate::parser::spec_parse_query(w, schema, granted, like_in_numerics)
                    == Some((t, Seq::<crate::db_field::SortG>::empty())));
            } else if ts[0] is Semi {
                assert(t == TermG::And(Seq::<TermG>::empty()));
                assert(j == 0);
                assert(w[2] is Semi);
                lemma_parse_sort_shift(bb, ts, 1, schema, false);
                assert(crate::parser::spec_parse_sort(w, 3, schema, false)
                    == crate::parser::spec_parse_sort(ts, 1, schema, false));
            } else {
                if j >= ts.len() {
                } else if ts[j] is Semi {
                    assert(w[j + 2] == ts[j]);
                    lemma_parse_sort_shift(bb, ts, j + 1, schema, false);
                } else {
                    assert(w[j + 2] == ts[j]);
                }
            }
        },
    }
}

} // verus!
