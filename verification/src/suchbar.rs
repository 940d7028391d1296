//! The public facade: a `Suchbar` holds the schema and options, turns a
//! query into a `WhereClause`, and the `WhereClause` renders itself as SQL.

use vstd::prelude::*;

use crate::comp_op::CompOp;
use crate::dates::{valid_date, Date};
use crate::db_field::{spec_join, DbField, FieldG, SortField, SortG};
use crate::error::SuchError;
use crate::parser::{
    schema_view, spec_bangs, spec_choose_field, spec_choose_from, spec_choose_vec,
    spec_parse_expr, spec_parse_field, spec_parse_sort, spec_parse_term, spec_query,
    spec_resolve_field, spec_resolve_term, spec_tokenize, toks_view, Tok, TokG,
};
use crate::perm::Permeable;
use crate::sql_term::{emit_matches, spec_emit, terms_view, SQLTerm, TermG};

verus! {

/// Options steering the query translation.
#[derive(Debug)]
pub struct SuchOptions {
    /// Whether a bare word also searches numeric columns, through a cast to
    /// text.
    pub like_in_numerics: bool,
}

impl SuchOptions {
    /// The default options: bare words search text columns only.
    pub fn new() -> (r: Self)
        ensures
            !r.like_in_numerics,
    {
        SuchOptions { like_in_numerics: false }
    }
}

impl Default for SuchOptions {
    /// The same as [`SuchOptions::new`].
    fn default() -> (r: Self)
        ensures
            !r.like_in_numerics,
    {
        SuchOptions { like_in_numerics: false }
    }
}

/// The ghost image of an optional character-vector argument.
pub open spec fn opt_chars_view(o: Option<Vec<char>>) -> Option<Seq<char>> {
    match o {
        Some(v) => Some(v@),
        None => None,
    }
}

/// The ghost image of a sort list.
pub open spec fn sorts_view(s: Seq<SortField>) -> Seq<SortG> {
    s.map_values(|x: SortField| x@)
}

/// Generates `WhereClause`s from user queries against a fixed schema.
#[derive(Debug)]
pub struct Suchbar {
    db_fields: Vec<DbField>,
    options: SuchOptions,
}

/// The explanation text: one line per permitted field, its aliases and its
/// simplified type.
pub open spec fn spec_explanation(fs: Seq<FieldG>, granted: Set<Seq<char>>) -> Seq<char>
    decreases fs.len(),
{
    if fs.len() == 0 {
        Seq::empty()
    } else {
        (if granted.contains(fs[0].permission) {
            fs[0].spec_aliases() + " "@ + fs[0].ty.spec_name() + "\n"@
        } else {
            Seq::<char>::empty()
        }) + spec_explanation(fs.subrange(1, fs.len() as int), granted)
    }
}

proof fn lemma_explanation_concat(a: Seq<FieldG>, b: Seq<FieldG>, granted: Set<Seq<char>>)
    ensures
        spec_explanation(a + b, granted) == spec_explanation(a, granted) + spec_explanation(
            b,
            granted,
        ),
    decreases a.len(),
{
    if a.len() == 0 {
        assert(a + b =~= b);
        assert(spec_explanation(a, granted) + spec_explanation(b, granted) =~= spec_explanation(
            b,
            granted,
        ));
    } else {
        let t = a.subrange(1, a.len() as int);
        lemma_explanation_concat(t, b, granted);
        assert((a + b).subrange(1, (a + b).len() as int) =~= t + b);
        let head = if granted.contains(a[0].permission) {
            a[0].spec_aliases() + " "@ + a[0].ty.spec_name() + "\n"@
        } else {
            Seq::<char>::empty()
        };
        assert(head + (spec_explanation(t, granted) + spec_explanation(b, granted)) =~= (head
            + spec_explanation(t, granted)) + spec_explanation(b, granted));
    }
}

impl Suchbar {
    /// The ghost image of the schema, in declaration order.
    pub closed spec fn spec_fields(&self) -> Seq<FieldG> {
        schema_view(self.db_fields@)
    }

    /// Whether bare words also search numeric columns.
    pub closed spec fn spec_like_in_numerics(&self) -> bool {
        self.options.like_in_numerics
    }

    /// A query translator over the given schema, with default options.
    pub fn new(db_fields: Vec<DbField>) -> (r: Self)
        ensures
            r.spec_fields() == schema_view(db_fields@),
            !r.spec_like_in_numerics(),
    {
        Suchbar { db_fields, options: SuchOptions::new() }
    }

    /// A query translator over the given schema, with the given options.
    pub fn with_options(db_fields: Vec<DbField>, options: SuchOptions) -> (r: Self)
        ensures
            r.spec_fields() == schema_view(db_fields@),
            r.spec_like_in_numerics() == options.like_in_numerics,
    {
        Suchbar { db_fields, options }
    }

    /// Lists the fields the caller may search: per line the aliases and the
    /// simplified type.
    pub fn explanation<P: Permeable>(&self, permission: &P) -> (r: String)
        ensures
            r@ == spec_explanation(self.spec_fields(), permission.granted()),
    {
        let ghost fs = self.spec_fields();
        let ghost granted = permission.granted();
        let mut out: Vec<char> = Vec::new();
        let mut i: usize = 0;
        proof {
            assert(fs.subrange(0, 0) =~= Seq::<FieldG>::empty());
            assert(out@ =~= spec_explanation(fs.subrange(0, 0), granted));
        }
        while i < self.db_fields.len()
            invariant
                i <= self.db_fields@.len(),
                fs == self.spec_fields(),
                fs.len() == self.db_fields@.len(),
                granted == permission.granted(),
                out@ == spec_explanation(fs.subrange(0, i as int), granted),
            decreases self.db_fields@.len() - i,
        {
            let field = &self.db_fields[i];
            proof {
                let pre = fs.subrange(0, i as int);
                lemma_explanation_concat(pre, seq![fs[i as int]], granted);
                assert(pre + seq![fs[i as int]] =~= fs.subrange(0, i + 1));
                let single = seq![fs[i as int]];
                assert(single.subrange(1, 1) =~= Seq::<FieldG>::empty());
                assert(spec_explanation(single.subrange(1, 1), granted)
                    == Seq::<char>::empty());
                if granted.contains(fs[i as int].permission) {
                    assert(spec_explanation(single, granted) =~= fs[i as int].spec_aliases()
                        + " "@ + fs[i as int].ty.spec_name() + "\n"@);
                } else {
                    assert(spec_explanation(single, granted) =~= Seq::<char>::empty());
                }
            }
            if permission.has_perm(field.permission.as_str()) {
                let a = field.aliases();
                crate::chars::append_str(&mut out, a.as_str());
                crate::chars::append_str(&mut out, " ");
                let ty = field.db_type();
                crate::chars::append_str(&mut out, ty.as_str());
                crate::chars::append_str(&mut out, "\n");
                proof {
                    assert(out@ =~= spec_explanation(fs.subrange(0, i + 1), granted));
                }
            } else {
                proof {
                    assert(out@ =~= spec_explanation(fs.subrange(0, i + 1), granted));
                }
            }
            i += 1;
        }
        proof {
            assert(fs.subrange(0, fs.len() as int) =~= fs);
        }
        crate::chars::chars_to_string(&out)
    }

    /// The field a user-facing (case-insensitive) name denotes, if any.
    pub fn choose_field(&self, needle: &str) -> (r: Option<DbField>)
        ensures
            r is Some <==> spec_choose_field(self.spec_fields(), needle@) is Some,
            r is Some ==> r->0@ == spec_choose_field(self.spec_fields(), needle@)->Some_0,
    {
        let cs = crate::chars::str_to_chars(needle);
        self.choose_field_chars(&cs)
    }

    /// The field a name given as characters denotes, if any.
    fn choose_field_chars(&self, needle: &Vec<char>) -> (r: Option<DbField>)
        ensures
            r is Some <==> spec_choose_field(self.spec_fields(), needle@) is Some,
            r is Some ==> r->0@ == spec_choose_field(self.spec_fields(), needle@)->Some_0,
    {
        let low = crate::chars::lower_chars(needle);
        choose_field_from(&self.db_fields, 0, &low)
    }

    /// The fields a term addresses: the named field alone, or the whole
    /// schema for a bare term.
    pub fn choose_field_vec(&self, needle: &str) -> (r: Vec<DbField>)
        ensures
            schema_view(r@) == spec_choose_vec(self.spec_fields(), needle@),
    {
        let cs = crate::chars::str_to_chars(needle);
        self.choose_field_vec_chars(&cs)
    }

    fn choose_field_vec_chars(&self, needle: &Vec<char>) -> (r: Vec<DbField>)
        ensures
            schema_view(r@) == spec_choose_vec(self.spec_fields(), needle@),
    {
        match self.choose_field_chars(needle) {
            Some(f) => {
                let mut r: Vec<DbField> = Vec::new();
                r.push(f);
                proof {
                    assert(schema_view(r@) =~= spec_choose_vec(self.spec_fields(), needle@));
                }
                r
            },
            None => {
                let mut r: Vec<DbField> = Vec::new();
                let mut i: usize = 0;
                while i < self.db_fields.len()
                    invariant
                        i <= self.db_fields@.len(),
                        r@.len() == i,
                        forall|j: int| 0 <= j < i ==> r@[j]@ == self.db_fields@[j]@,
                    decreases self.db_fields@.len() - i,
                {
                    r.push(self.db_fields[i].clone());
                    i += 1;
                }
                proof {
                    assert(schema_view(r@) =~= spec_choose_vec(self.spec_fields(), needle@));
                }
                r
            },
        }
    }
}

/// The first field from `i` on whose aliases hold the (lower-cased) needle.
fn choose_field_from(fields: &Vec<DbField>, i: usize, needle: &Vec<char>) -> (r: Option<DbField>)
    requires
        i <= fields@.len(),
    ensures
        r is Some <==> spec_choose_from(schema_view(fields@), i as int, needle@) is Some,
        r is Some ==> r->0@ == spec_choose_from(schema_view(fields@), i as int, needle@)->Some_0,
    decreases fields@.len() - i,
{
    if i >= fields.len() {
        None
    } else {
        if alias_contains(&fields[i], needle) {
            Some(fields[i].clone())
        } else {
            choose_field_from(fields, i + 1, needle)
        }
    }
}

/// Whether one of the field's aliases equals the needle.
fn alias_contains(f: &DbField, needle: &Vec<char>) -> (r: bool)
    ensures
        r == f@.aliases.contains(needle@),
{
    let mut i: usize = 0;
    while i < f.alias.len()
        invariant
            i <= f.alias@.len(),
            forall|j: int| 0 <= j < i ==> f.alias@[j]@ != needle@,
        decreases f.alias@.len() - i,
    {
        if crate::chars::eq_str_chars(f.alias[i].as_str(), needle) {
            proof {
                assert(f@.aliases[i as int] == needle@);
            }
            return true;
        }
        i += 1;
    }
    proof {
        if f@.aliases.contains(needle@) {
            let k = choose|k: int| 0 <= k < f@.aliases.len() && f@.aliases[k] == needle@;
            assert(f.alias@[k]@ == needle@);
        }
    }
    false
}


/// A copy of a character vector.
fn clone_chars(v: &Vec<char>) -> (r: Vec<char>)
    ensures
        r@ == v@,
{
    let mut r: Vec<char> = Vec::new();
    crate::chars::append_vec(&mut r, v);
    proof {
        assert(Seq::<char>::empty() + v@ =~= v@);
    }
    r
}

/// Builds the IR contribution of one field to a term; see
/// [`spec_resolve_field`].
fn resolve_field<P: Permeable>(
    perm: &P,
    like_in_numerics: bool,
    f: DbField,
    named: bool,
    cmp: CompOp,
    value: &Vec<char>,
    like_starting: bool,
    like_ending: bool,
    to_val: &Option<Vec<char>>,
) -> (r: SQLTerm)
    ensures
        r@ == spec_resolve_field(
            f@,
            perm.granted(),
            like_in_numerics,
            named,
            cmp,
            value@,
            like_starting,
            like_ending,
            opt_chars_view(*to_val),
        ),
{
    let ghost fg = f@;
    if !perm.has_perm(f.permission.as_str()) {
        SQLTerm::DENIED
    } else if like_ending || like_starting {
        let mut glob: Vec<char> = Vec::new();
        if like_starting {
            crate::chars::append_str(&mut glob, "*");
        }
        crate::chars::append_vec(&mut glob, value);
        if like_ending {
            crate::chars::append_str(&mut glob, "*");
        }
        proof {
            assert(glob@ =~= (if like_starting {
                "*"@
            } else {
                Seq::<char>::empty()
            }) + value@ + (if like_ending {
                "*"@
            } else {
                Seq::<char>::empty()
            }));
        }
        let gs = crate::chars::chars_to_string(&glob);
        if cmp == CompOp::NotEqual {
            let inner = SQLTerm::LIKE(f, gs);
            proof {
                assert(inner@ == TermG::Like(fg, glob@));
            }
            let r = SQLTerm::NOT(Box::new(inner));
            proof {
                assert(r@ == TermG::Not(Box::new(TermG::Like(fg, glob@))));
            }
            r
        } else {
            let r = SQLTerm::LIKE(f, gs);
            proof {
                assert(r@ == TermG::Like(fg, glob@));
            }
            r
        }
    } else if !named {
        if f.is_text() || like_in_numerics {
            let mut glob: Vec<char> = Vec::new();
            crate::chars::append_str(&mut glob, "*");
            crate::chars::append_vec(&mut glob, value);
            crate::chars::append_str(&mut glob, "*");
            proof {
                assert(glob@ =~= "*"@ + value@ + "*"@);
            }
            SQLTerm::LIKE(f, crate::chars::chars_to_string(&glob))
        } else {
            SQLTerm::VALUE(
                f,
                CompOp::Equal,
                crate::dates::Direction::From,
                crate::chars::chars_to_string(value),
            )
        }
    } else if to_val.is_some() {
        let tv = match to_val {
            Some(t) => clone_chars(t),
            None => Vec::new(),
        };
        let lo = SQLTerm::VALUE(
            f.clone(),
            CompOp::Gte,
            crate::dates::Direction::From,
            crate::chars::chars_to_string(value),
        );
        let hi = SQLTerm::VALUE(
            f,
            CompOp::Lt,
            crate::dates::Direction::To,
            crate::chars::chars_to_string(&tv),
        );
        let ghost log = lo@;
        let ghost hig = hi@;
        let mut children: Vec<SQLTerm> = Vec::new();
        children.push(lo);
        let ghost one = children@;
        children.push(hi);
        let r = SQLTerm::AND(children);
        proof {
            crate::sql_term::lemma_terms_view_push(Seq::<SQLTerm>::empty(), one[0]);
            assert(Seq::<SQLTerm>::empty().push(one[0]) =~= one);
            assert(terms_view(Seq::<SQLTerm>::empty()) == Seq::<TermG>::empty());
            crate::sql_term::lemma_terms_view_push(one, children@[1]);
            assert(one.push(children@[1]) =~= children@);
            let target = spec_resolve_field(
                fg,
                perm.granted(),
                like_in_numerics,
                named,
                cmp,
                value@,
                like_starting,
                like_ending,
                opt_chars_view(*to_val),
            );
            assert(terms_view(children@) =~= target->And_0);
            assert(r@ == target);
        }
        r
    } else if cmp == CompOp::NotEqual {
        let inner = SQLTerm::VALUE(
            f,
            CompOp::Equal,
            crate::dates::Direction::From,
            crate::chars::chars_to_string(value),
        );
        proof {
            assert(inner@ == TermG::Value(fg, CompOp::Equal, crate::dates::Direction::From, value@));
        }
        let r = SQLTerm::NOT(Box::new(inner));
        proof {
            assert(r@ == TermG::Not(
                Box::new(TermG::Value(fg, CompOp::Equal, crate::dates::Direction::From, value@)),
            ));
        }
        r
    } else {
        SQLTerm::VALUE(f, cmp, crate::dates::Direction::From, crate::chars::chars_to_string(value))
    }
}

impl Suchbar {
    /// Builds the fan-out of one term across the fields it addresses; see
    /// [`spec_resolve_term`].
    fn resolve_term<P: Permeable>(
        &self,
        perm: &P,
        name: &Option<Vec<char>>,
        cmp: CompOp,
        value: &Vec<char>,
        like_starting: bool,
        like_ending: bool,
        to_val: &Option<Vec<char>>,
    ) -> (r: SQLTerm)
        ensures
            r@ == spec_resolve_term(
                self.spec_fields(),
                perm.granted(),
                self.spec_like_in_numerics(),
                opt_chars_view(*name),
                cmp,
                value@,
                like_starting,
                like_ending,
                opt_chars_view(*to_val),
            ),
    {
        let needle: Vec<char> = match name {
            Some(n) => clone_chars(n),
            None => Vec::new(),
        };
        let named = name.is_some();
        let fields = self.choose_field_vec_chars(&needle);
        let ghost fieldsg = spec_choose_vec(self.spec_fields(), needle@);
        let ghost granted = perm.granted();
        let ghost likenum = self.spec_like_in_numerics();
        let ghost target = fieldsg.map_values(
            |f: FieldG|
                spec_resolve_field(
                    f,
                    granted,
                    likenum,
                    named,
                    cmp,
                    value@,
                    like_starting,
                    like_ending,
                    opt_chars_view(*to_val),
                ),
        );
        let mut children: Vec<SQLTerm> = Vec::new();
        let mut i: usize = 0;
        proof {
            assert(schema_view(fields@).len() == fields@.len());
            assert(terms_view(children@) =~= target.subrange(0, 0));
            assert(opt_chars_view(*name) == (if name is Some {
                Some(needle@)
            } else {
                None::<Seq<char>>
            }));
        }
        while i < fields.len()
            invariant
                i <= fields@.len(),
                named == name is Some,
                granted == perm.granted(),
                likenum == self.spec_like_in_numerics(),
                fieldsg == schema_view(fields@),
                fieldsg.len() == fields@.len(),
                target == fieldsg.map_values(
                    |f: FieldG|
                        spec_resolve_field(
                            f,
                            granted,
                            likenum,
                            named,
                            cmp,
                            value@,
                            like_starting,
                            like_ending,
                            opt_chars_view(*to_val),
                        ),
                ),
                terms_view(children@) == target.subrange(0, i as int),
            decreases fields@.len() - i,
        {
            let child = resolve_field(
                perm,
                self.options.like_in_numerics,
                fields[i].clone(),
                named,
                cmp,
                value,
                like_starting,
                like_ending,
                to_val,
            );
            proof {
                assert(fields@[i as int]@ == fieldsg[i as int]);
                assert(child@ == target[i as int]);
                crate::sql_term::lemma_terms_view_push(children@, child);
                assert(target.subrange(0, i as int).push(target[i as int]) =~= target.subrange(
                    0,
                    i + 1,
                ));
            }
            children.push(child);
            i += 1;
        }
        proof {
            assert(target.subrange(0, target.len() as int) =~= target);
        }
        SQLTerm::OR(children)
    }

    /// Parses one term at token position `i`; see [`spec_parse_term`].
    fn parse_term<P: Permeable>(
        &self,
        perm: &P,
        ts: &Vec<Tok>,
        i: usize,
        name: &Option<Vec<char>>,
        cmp: CompOp,
    ) -> (r: Result<(SQLTerm, usize), SuchError>)
        requires
            i <= ts@.len(),
        ensures
            ({
                let spec = spec_parse_term(
                    toks_view(ts@),
                    i as int,
                    self.spec_fields(),
                    perm.granted(),
                    self.spec_like_in_numerics(),
                    opt_chars_view(*name),
                    cmp,
                );
                &&& (r is Ok <==> spec is Some)
                &&& (r is Ok ==> ((r->Ok_0).0@, (r->Ok_0).1 as int) == spec->Some_0)
                &&& (r is Ok ==> i < (r->Ok_0).1 <= ts@.len())
                &&& (r is Err ==> (r->Err_0) is ParseError)
            }),
    {
        let ghost tsg = toks_view(ts@);
        let mut like_starting = false;
        let mut like_ending = false;
        let mut p: usize = i;
        if p < ts.len() {
            match &ts[p] {
                Tok::Star => {
                    like_starting = true;
                    p = p + 1;
                },
                Tok::Caret => {
                    like_ending = true;
                    p = p + 1;
                },
                _ => {},
            }
        }
        if p >= ts.len() {
            return Err(SuchError::ParseError(crate::chars::str_to_string("missing value")));
        }
        let value: Vec<char> = match &ts[p] {
            Tok::Word(w) => clone_chars(w),
            Tok::Quoted(q) => clone_chars(q),
            _ => {
                return Err(SuchError::ParseError(crate::chars::str_to_string("missing value")));
            },
        };
        let p2 = p + 1;
        let mut p3 = p2;
        if p2 < ts.len() {
            match &ts[p2] {
                Tok::Dollar => {
                    like_starting = true;
                    p3 = p2 + 1;
                },
                Tok::Star => {
                    like_ending = true;
                    p3 = p2 + 1;
                },
                _ => {},
            }
        }
        let mut to_val: Option<Vec<char>> = None;
        let mut p4 = p3;
        if p3 < ts.len() && p3 + 1 < ts.len() {
            let is_dash = match &ts[p3] {
                Tok::Dash => true,
                _ => false,
            };
            if is_dash {
                match &ts[p3 + 1] {
                    Tok::Word(w) => {
                        to_val = Some(clone_chars(w));
                        p4 = p3 + 2;
                    },
                    Tok::Quoted(q) => {
                        to_val = Some(clone_chars(q));
                        p4 = p3 + 2;
                    },
                    _ => {},
                }
            }
        }
        let term = self.resolve_term(perm, name, cmp, &value, like_starting, like_ending, &to_val);
        Ok((term, p4))
    }

    /// Counts the negations at token position `i` as a parity.
    fn bangs(ts: &Vec<Tok>, i: usize) -> (r: (bool, usize))
        requires
            i <= ts@.len(),
        ensures
            (r.0, r.1 as int) == spec_bangs(toks_view(ts@), i as int),
            i <= r.1 <= ts@.len(),
        decreases ts@.len() - i,
    {
        if i < ts.len() {
            let is_bang = match &ts[i] {
                Tok::Bang | Tok::NotKw => true,
                _ => false,
            };
            if is_bang {
                let (p, j) = Self::bangs(ts, i + 1);
                (!p, j)
            } else {
                (false, i)
            }
        } else {
            (false, i)
        }
    }

    /// Parses a qualified term at token position `i`; see
    /// [`spec_parse_field`].
    fn parse_field<P: Permeable>(
        &self,
        perm: &P,
        ts: &Vec<Tok>,
        i: usize,
        sign: CompOp,
    ) -> (r: Result<(SQLTerm, usize), SuchError>)
        requires
            i + 1 < ts@.len(),
            ts@[i as int]@ is Word,
            ts@[i as int + 1]@ is Cmp,
        ensures
            ({
                let spec = spec_parse_field(
                    toks_view(ts@),
                    i as int,
                    self.spec_fields(),
                    perm.granted(),
                    self.spec_like_in_numerics(),
                    sign,
                );
                &&& (r is Ok <==> spec is Some)
                &&& (r is Ok ==> ((r->Ok_0).0@, (r->Ok_0).1 as int) == spec->Some_0)
                &&& (r is Ok ==> i < (r->Ok_0).1 <= ts@.len())
                &&& (r is Err ==> (r->Err_0) is ParseError)
            }),
    {
        let n = ts.len();
        let name: Vec<char> = match &ts[i] {
            Tok::Word(w) => clone_chars(w),
            _ => Vec::new(),
        };
        let op = match &ts[i + 1] {
            Tok::Cmp(c) => *c,
            _ => CompOp::Equal,
        };
        let (par, j) = Self::bangs(ts, i + 2);
        let not = (sign == CompOp::NotEqual) != par;
        let eff = if not {
            op.negate()
        } else {
            op
        };
        self.parse_term(perm, ts, j, &Some(name), eff)
    }

    /// Parses an expression at token position `i`; see [`spec_parse_expr`].
    fn parse_expr<P: Permeable>(
        &self,
        perm: &P,
        ts: &Vec<Tok>,
        i: usize,
        acc: Vec<SQLTerm>,
        or: bool,
        sign: CompOp,
    ) -> (r: Result<(SQLTerm, usize), SuchError>)
        requires
            i <= ts@.len(),
        ensures
            ({
                let spec = spec_parse_expr(
                    toks_view(ts@),
                    i as int,
                    self.spec_fields(),
                    perm.granted(),
                    self.spec_like_in_numerics(),
                    terms_view(acc@),
                    or,
                    sign,
                );
                &&& (r is Ok <==> spec is Some)
                &&& (r is Ok ==> ((r->Ok_0).0@, (r->Ok_0).1 as int) == spec->Some_0)
                &&& (r is Ok ==> i <= (r->Ok_0).1 <= ts@.len())
                &&& (r is Err ==> (r->Err_0) is ParseError)
            }),
        decreases ts@.len() - i,
    {
        let ghost tsg = toks_view(ts@);
        if i >= ts.len() {
            let t = if or {
                SQLTerm::OR(acc)
            } else {
                SQLTerm::AND(acc)
            };
            return Ok((t, i));
        }
        let stop = match &ts[i] {
            Tok::RPar | Tok::Semi => true,
            _ => false,
        };
        if stop {
            let t = if or {
                SQLTerm::OR(acc)
            } else {
                SQLTerm::AND(acc)
            };
            return Ok((t, i));
        }
        match &ts[i] {
            Tok::AndOp => self.parse_expr(perm, ts, i + 1, acc, false, sign),
            Tok::OrOp => self.parse_expr(perm, ts, i + 1, acc, true, sign),
            Tok::Bang | Tok::NotKw => self.parse_expr(perm, ts, i + 1, acc, or, sign.negate()),
            Tok::LPar => {
                match self.parse_expr(perm, ts, i + 1, Vec::new(), false, CompOp::Equal) {
                    Err(e) => Err(e),
                    Ok((sub, j)) => {
                        proof {
                            assert(terms_view(Seq::<SQLTerm>::empty())
                                =~= Seq::<TermG>::empty());
                        }
                        let closes = j < ts.len() && (match &ts[j] {
                            Tok::RPar => true,
                            _ => false,
                        });
                        if !closes {
                            Err(
                                SuchError::ParseError(
                                    crate::chars::str_to_string("missing closing parenthesis"),
                                ),
                            )
                        } else {
                            let ghost acc0 = acc@;
                            let ghost subv = sub;
                            let mut acc2 = acc;
                            acc2.push(sub);
                            proof {
                                crate::sql_term::lemma_terms_view_push(acc0, subv);
                                assert(acc2@ == acc0.push(subv));
                                assert(terms_view(acc2@) == terms_view(acc0).push(subv@));
                            }
                            self.parse_expr(perm, ts, j + 1, acc2, or, sign)
                        }
                    },
                }
            },
            _ => {
                let is_field = match &ts[i] {
                    Tok::Word(_) => i + 1 < ts.len() && (match &ts[i + 1] {
                        Tok::Cmp(_) => true,
                        _ => false,
                    }),
                    _ => false,
                };
                let one = if is_field {
                    self.parse_field(perm, ts, i, sign)
                } else {
                    self.parse_term(perm, ts, i, &None, sign)
                };
                match one {
                    Err(e) => Err(e),
                    Ok((t, j)) => {
                        let ghost acc0 = acc@;
                        let ghost tv = t;
                        let mut acc2 = acc;
                        acc2.push(t);
                        proof {
                            crate::sql_term::lemma_terms_view_push(acc0, tv);
                            assert(acc2@ == acc0.push(tv));
                            assert(terms_view(acc2@) == terms_view(acc0).push(tv@));
                        }
                        self.parse_expr(perm, ts, j, acc2, or, sign)
                    },
                }
            },
        }
    }

    /// Parses the sort clause from token position `i`; see
    /// [`spec_parse_sort`].
    fn parse_sort(&self, ts: &Vec<Tok>, i: usize, desc: bool) -> (r: Vec<SortField>)
        requires
            i <= ts@.len(),
        ensures
            sorts_view(r@) == spec_parse_sort(toks_view(ts@), i as int, self.spec_fields(), desc),
        decreases ts@.len() - i,
    {
        if i >= ts.len() {
            let r: Vec<SortField> = Vec::new();
            proof {
                assert(sorts_view(r@) =~= spec_parse_sort(
                    toks_view(ts@),
                    i as int,
                    self.spec_fields(),
                    desc,
                ));
            }
            return r;
        }
        match &ts[i] {
            Tok::Caret => self.parse_sort(ts, i + 1, true),
            Tok::Word(w) => {
                match self.choose_field_chars(w) {
                    Some(f) => {
                        let mut rest = self.parse_sort(ts, i + 1, false);
                        let ghost restg = sorts_view(rest@);
                        rest.insert(0, SortField { desc, field: f });
                        proof {
                            assert(sorts_view(rest@) =~= seq![
                                SortG {
                                    desc,
                                    field: spec_choose_field(self.spec_fields(), w@)->Some_0,
                                },
                            ] + restg);
                        }
                        rest
                    },
                    None => self.parse_sort(ts, i + 1, desc),
                }
            },
            _ => self.parse_sort(ts, i + 1, desc),
        }
    }

    /// Creates a `WhereClause` from `query`, keeping only the branches the
    /// caller's permissions allow; date tokens will resolve against today's
    /// date.
    pub fn exec<P: Permeable>(&self, permission: &P, query: &str) -> (r: Result<
        WhereClause,
        SuchError,
    >)
        ensures
            ({
                let spec = spec_query(
                    query@,
                    self.spec_fields(),
                    permission.granted(),
                    self.spec_like_in_numerics(),
                );
                &&& (r is Ok <==> spec is Some)
                &&& (r is Ok ==> (r->Ok_0).spec_term() == (spec->Some_0).0)
                &&& (r is Ok ==> sorts_view((r->Ok_0).spec_sorts()) == (spec->Some_0).1)
                &&& (r is Err ==> (r->Err_0) is ParseError)
            }),
    {
        let today = crate::dates::today();
        self.exec_at(permission, query, today)
    }

    /// Creates a `WhereClause` from `query`, resolving date tokens against
    /// the given anchor date.
    pub fn exec_at<P: Permeable>(&self, permission: &P, query: &str, today: Date) -> (r: Result<
        WhereClause,
        SuchError,
    >)
        requires
            valid_date(today),
        ensures
            ({
                let spec = spec_query(
                    query@,
                    self.spec_fields(),
                    permission.granted(),
                    self.spec_like_in_numerics(),
                );
                &&& (r is Ok <==> spec is Some)
                &&& (r is Ok ==> (r->Ok_0).spec_term() == (spec->Some_0).0)
                &&& (r is Ok ==> sorts_view((r->Ok_0).spec_sorts()) == (spec->Some_0).1)
                &&& (r is Ok ==> (r->Ok_0).spec_today() == today)
                &&& (r is Err ==> (r->Err_0) is ParseError)
            }),
    {
        let chars = crate::chars::str_to_chars(query);
        let ts = match crate::parser::tokenize(&chars) {
            Ok(ts) => ts,
            Err(e) => {
                return Err(e);
            },
        };
        let empty: Vec<SQLTerm> = Vec::new();
        proof {
            assert(terms_view(Seq::<SQLTerm>::empty()) =~= Seq::<TermG>::empty());
        }
        if ts.len() == 0 {
            let sql_term = SQLTerm::AND(empty);
            let sort_field: Vec<SortField> = Vec::new();
            proof {
                assert(sorts_view(sort_field@) =~= Seq::<SortG>::empty());
            }
            return Ok(WhereClause { sql_term, sort_field, today });
        }
        let leads_semi = match &ts[0] {
            Tok::Semi => true,
            _ => false,
        };
        if leads_semi {
            let sql_term = SQLTerm::AND(empty);
            let sort_field = self.parse_sort(&ts, 1, false);
            return Ok(WhereClause { sql_term, sort_field, today });
        }
        match self.parse_expr(permission, &ts, 0, empty, false, CompOp::Equal) {
            Err(e) => Err(e),
            Ok((t, j)) => {
                if j >= ts.len() {
                    let sort_field: Vec<SortField> = Vec::new();
                    proof {
                        assert(sorts_view(sort_field@) =~= Seq::<SortG>::empty());
                    }
                    Ok(WhereClause { sql_term: t, sort_field, today })
                } else {
                    let at_semi = match &ts[j] {
                        Tok::Semi => true,
                        _ => false,
                    };
                    if at_semi {
                        let sort_field = self.parse_sort(&ts, j + 1, false);
                        Ok(WhereClause { sql_term: t, sort_field, today })
                    } else {
                        Err(
                            SuchError::ParseError(
                                crate::chars::str_to_string("query not fully understood"),
                            ),
                        )
                    }
                }
            },
        }
    }
}

/// The result of a query, ready to be inserted into a SELECT statement.
#[derive(Debug)]
pub struct WhereClause {
    sql_term: SQLTerm,
    sort_field: Vec<SortField>,
    today: Date,
}

/// The `ORDER BY` list: the entries joined with commas.
pub open spec fn spec_order_by(ss: Seq<SortG>) -> Seq<char> {
    spec_join(ss.map_values(|s: SortG| s.spec_to_sql()), ", "@)
}

/// The full fragment: the WHERE portion prefixed when it is non-empty, then
/// the ORDER BY portion when there are sort entries.
pub open spec fn spec_full_sql(
    t: TermG,
    sorts: Seq<SortG>,
    today: Date,
    prefix: Seq<char>,
) -> Seq<char> {
    let whr = match spec_emit(t, today) {
        Ok(s) => s,
        Err(_) => Seq::<char>::empty(),
    };
    let w2: Seq<char> = if whr.len() == 0 {
        whr
    } else {
        " "@ + prefix + " "@ + whr
    };
    let srt: Seq<char> = if sorts.len() == 0 {
        Seq::empty()
    } else {
        " ORDER BY "@ + spec_order_by(sorts)
    };
    w2 + srt
}

impl WhereClause {
    /// The invariant every `WhereClause` carries: its anchor date is a real
    /// date.
    #[verifier::type_invariant]
    spec fn wf(self) -> bool {
        valid_date(self.today)
    }

    /// The ghost image of the IR this clause renders.
    pub closed spec fn spec_term(&self) -> TermG {
        self.sql_term@
    }

    /// The sort entries of this clause.
    pub closed spec fn spec_sorts(&self) -> Seq<SortField> {
        self.sort_field@
    }

    /// The anchor date this clause resolves date tokens against.
    pub closed spec fn spec_today(&self) -> Date {
        self.today
    }

    /// Returns the WHERE portion as SQL; an error when nothing survives.
    pub fn where_clause(&self) -> (r: Result<String, SuchError>)
        ensures
            emit_matches(self.spec_term(), self.spec_today(), r),
    {
        proof {
            use_type_invariant(self);
        }
        self.sql_term.to_sql_at(&self.today)
    }

    /// Returns the `ORDER BY` portion: the sort entries joined with commas.
    pub fn order_by(&self) -> (r: String)
        ensures
            r@ == spec_order_by(sorts_view(self.spec_sorts())),
    {
        let ghost items = sorts_view(self.sort_field@).map_values(|s: SortG| s.spec_to_sql());
        let mut out: Vec<char> = Vec::new();
        let mut i: usize = 0;
        proof {
            assert(sorts_view(self.sort_field@).len() == self.sort_field@.len());
            assert(out@ =~= spec_join(items.subrange(0, 0), ", "@));
        }
        while i < self.sort_field.len()
            invariant
                i <= self.sort_field@.len(),
                items == sorts_view(self.sort_field@).map_values(|s: SortG| s.spec_to_sql()),
                items.len() == self.sort_field@.len(),
                out@ == spec_join(items.subrange(0, i as int), ", "@),
            decreases self.sort_field@.len() - i,
        {
            if i > 0 {
                crate::chars::append_str(&mut out, ", ");
            }
            let part = self.sort_field[i].to_sql();
            crate::chars::append_str(&mut out, part.as_str());
            proof {
                crate::db_field::lemma_join_push(
                    items.subrange(0, i as int),
                    items[i as int],
                    ", "@,
                );
                assert(items.subrange(0, i as int).push(items[i as int]) =~= items.subrange(
                    0,
                    i + 1,
                ));
                assert(items[i as int] == self.sort_field@[i as int]@.spec_to_sql());
                if i == 0 {
                    assert(out@ =~= spec_join(items.subrange(0, 1), ", "@));
                } else {
                    assert(out@ =~= spec_join(items.subrange(0, i + 1), ", "@));
                }
            }
            i += 1;
        }
        proof {
            assert(items.subrange(0, items.len() as int) =~= items);
        }
        crate::chars::chars_to_string(&out)
    }

    /// Returns the whole fragment: the WHERE portion prefixed by
    /// `concatenate` when non-empty, then the `ORDER BY` portion when sort
    /// entries exist; errors render as the empty string.
    pub fn to_sql(&self, concatenate: &str) -> (r: String)
        ensures
            r@ == spec_full_sql(
                self.spec_term(),
                sorts_view(self.spec_sorts()),
                self.spec_today(),
                concatenate@,
            ),
    {
        let mut out: Vec<char> = Vec::new();
        let empty_str = crate::chars::str_to_string("");
        proof {
            reveal_strlit("");
        }
        let whr = match self.where_clause() {
            Ok(s) => s,
            Err(_) => empty_str,
        };
        let whr_str: &str = whr.as_str();
        if whr_str.unicode_len() > 0 {
            crate::chars::append_str(&mut out, " ");
            crate::chars::append_str(&mut out, concatenate);
            crate::chars::append_str(&mut out, " ");
            crate::chars::append_str(&mut out, whr_str);
        }
        proof {
            assert(sorts_view(self.spec_sorts()).len() == self.sort_field@.len());
        }
        if self.sort_field.len() > 0 {
            crate::chars::append_str(&mut out, " ORDER BY ");
            let ob = self.order_by();
            crate::chars::append_str(&mut out, ob.as_str());
        }
        proof {
            assert(out@ =~= spec_full_sql(
                self.spec_term(),
                sorts_view(self.spec_sorts()),
                self.spec_today(),
                concatenate@,
            ));
        }
        crate::chars::chars_to_string(&out)
    }
}


} // verus!
