//! The field descriptors of the queryable schema: each column's SQL name,
//! its type with constraints, the permission token guarding it, and its
//! user-facing aliases — together with the per-type value coercion.

use vstd::prelude::*;

use crate::chars::{spec_lower_seq, spec_trim};
use crate::comp_op::CompOp;
use crate::dates::{date_shaped, spec_date_guard, spec_resolved_date, valid_date, Date, Direction};
use crate::error::{ErrKind, SuchError};
use crate::escape::spec_escape;
use crate::num::{spec_is_decimal, spec_parse_u64};

verus! {

/// The SQL type of a column, deciding how query values are coerced and which
/// predicates the column can carry.
#[allow(non_camel_case_types)]
#[derive(Copy, Clone, Eq, PartialEq, Debug, Structural)]
pub enum DbType {
    /// Text up to the given number of characters.
    VARCHAR(usize),
    /// Text of any length.
    TEXT,
    /// An unsigned integer between the two bounds, inclusive.
    INTEGER(u64, u64),
    /// A fixed-point decimal: total significant digits, fractional digits.
    NUMERIC(u32, u32),
    /// A boolean, accepting a fixed multilingual token set.
    BOOL,
    /// A calendar date without time of day.
    DATE,
    /// A date with time of day.
    TIMESTAMP,
}

/// `s` with `,` replaced by `.`, the decimal-comma tolerance of the numeric
/// coercions.
pub open spec fn spec_map_comma(s: Seq<char>) -> Seq<char> {
    s.map_values(
        |c: char|
            if c == ',' {
                '.'
            } else {
                c
            },
    )
}

/// `s` with every `%` removed, so that wildcards do not break the numeric
/// checks.
pub open spec fn spec_strip_pct(s: Seq<char>) -> Seq<char>
    decreases s.len(),
{
    if s.len() == 0 {
        Seq::empty()
    } else if s[0] == '%' {
        spec_strip_pct(s.subrange(1, s.len() as int))
    } else {
        seq![s[0]] + spec_strip_pct(s.subrange(1, s.len() as int))
    }
}

proof fn lemma_strip_pct_concat(a: Seq<char>, b: Seq<char>)
    ensures
        spec_strip_pct(a + b) == spec_strip_pct(a) + spec_strip_pct(b),
    decreases a.len(),
{
    if a.len() == 0 {
        assert(a + b =~= b);
        assert(spec_strip_pct(a) + spec_strip_pct(b) =~= spec_strip_pct(b));
    } else {
        let t = a.subrange(1, a.len() as int);
        lemma_strip_pct_concat(t, b);
        assert((a + b).subrange(1, (a + b).len() as int) =~= t + b);
        if a[0] == '%' {
        } else {
            assert(seq![a[0]] + (spec_strip_pct(t) + spec_strip_pct(b)) =~= (seq![a[0]]
                + spec_strip_pct(t)) + spec_strip_pct(b));
        }
    }
}

proof fn lemma_strip_pct_singleton(c: char)
    ensures
        spec_strip_pct(seq![c]) == if c == '%' {
            Seq::<char>::empty()
        } else {
            seq![c]
        },
{
    let s = seq![c];
    assert(s.len() == 1);
    assert(s[0] == c);
    let t = s.subrange(1, 1);
    assert(t.len() == 0);
    assert(spec_strip_pct(t) == Seq::<char>::empty());
    if c == '%' {
        assert(spec_strip_pct(s) == spec_strip_pct(t));
    } else {
        assert(spec_strip_pct(s) == seq![s[0]] + spec_strip_pct(t));
        assert(seq![c] + Seq::<char>::empty() =~= seq![c]);
    }
}

fn map_comma(v: &Vec<char>) -> (r: Vec<char>)
    ensures
        r@ == spec_map_comma(v@),
{
    let mut r: Vec<char> = Vec::new();
    let mut i: usize = 0;
    while i < v.len()
        invariant
            i <= v@.len(),
            r@ =~= spec_map_comma(v@).subrange(0, i as int),
        decreases v@.len() - i,
    {
        if v[i] == ',' {
            r.push('.');
        } else {
            r.push(v[i]);
        }
        i += 1;
    }
    proof {
        assert(r@ =~= spec_map_comma(v@));
    }
    r
}

fn strip_pct(v: &Vec<char>) -> (r: Vec<char>)
    ensures
        r@ == spec_strip_pct(v@),
    decreases v@.len(),
{
    let mut r: Vec<char> = Vec::new();
    let mut i: usize = 0;
    proof {
        assert(v@.subrange(0, 0) =~= Seq::<char>::empty());
    }
    while i < v.len()
        invariant
            i <= v@.len(),
            r@ == spec_strip_pct(v@.subrange(0, i as int)),
        decreases v@.len() - i,
    {
        let c = v[i];
        proof {
            let pre = v@.subrange(0, i as int);
            lemma_strip_pct_concat(pre, seq![c]);
            lemma_strip_pct_singleton(c);
            assert(pre + seq![c] =~= v@.subrange(0, i + 1));
        }
        if c != '%' {
            r.push(c);
        }
        proof {
            assert(r@ =~= spec_strip_pct(v@.subrange(0, i + 1)));
        }
        i += 1;
    }
    proof {
        assert(v@.subrange(0, v@.len() as int) =~= v@);
    }
    r
}

/// The boolean meaning of a query token, after trimming and lower-casing:
/// the multilingual yes/no table.
pub open spec fn spec_try_bool(s: Seq<char>) -> Option<bool> {
    let t = spec_lower_seq(spec_trim(s));
    if t == "1"@ || t == "true"@ || t == "wahr"@ || t == "yes"@ || t == "ja"@ || t == "y"@ || t
        == "j"@ || t == "t"@ || t == "w"@ {
        Some(true)
    } else if t == "0"@ || t == "false"@ || t == "falsch"@ || t == "unwahr"@ || t == "no"@ || t
        == "not"@ || t == "nein"@ || t == "n"@ || t == "f"@ {
        Some(false)
    } else {
        None
    }
}

/// Reads a boolean token: `1`, `true`, `wahr`, `yes`, `ja`, `y`, `j`, `t`,
/// `w` mean true; `0`, `false`, `falsch`, `unwahr`, `no`, `not`, `nein`,
/// `n`, `f` mean false; case-insensitive, surrounding blanks ignored.
pub fn try_bool(s: &str) -> (r: Result<bool, SuchError>)
    ensures
        r is Ok <==> spec_try_bool(s@) is Some,
        r is Ok ==> r->Ok_0 == spec_try_bool(s@)->Some_0,
        r is Err ==> r->Err_0 is ParseError,
{
    let cs = crate::chars::str_to_chars(s);
    try_bool_chars(&cs)
}

/// Reads a boolean token given as characters; see [`try_bool`].
pub fn try_bool_chars(s: &Vec<char>) -> (r: Result<bool, SuchError>)
    ensures
        r is Ok <==> spec_try_bool(s@) is Some,
        r is Ok ==> r->Ok_0 == spec_try_bool(s@)->Some_0,
        r is Err ==> r->Err_0 is ParseError,
{
    let trimmed = crate::chars::trim_chars(s);
    let t = crate::chars::lower_chars(&trimmed);
    if crate::chars::eq_str_chars("1", &t) || crate::chars::eq_str_chars("true", &t)
        || crate::chars::eq_str_chars("wahr", &t) || crate::chars::eq_str_chars("yes", &t)
        || crate::chars::eq_str_chars("ja", &t) || crate::chars::eq_str_chars("y", &t)
        || crate::chars::eq_str_chars("j", &t) || crate::chars::eq_str_chars("t", &t)
        || crate::chars::eq_str_chars("w", &t) {
        Ok(true)
    } else if crate::chars::eq_str_chars("0", &t) || crate::chars::eq_str_chars("false", &t)
        || crate::chars::eq_str_chars("falsch", &t) || crate::chars::eq_str_chars("unwahr", &t)
        || crate::chars::eq_str_chars("no", &t) || crate::chars::eq_str_chars("not", &t)
        || crate::chars::eq_str_chars("nein", &t) || crate::chars::eq_str_chars("n", &t)
        || crate::chars::eq_str_chars("f", &t) {
        Ok(false)
    } else {
        Err(SuchError::parse_error_chars(s))
    }
}

/// True for the characters a timestamp value may hold besides digits.
pub open spec fn spec_ts_char_ok(c: char) -> bool {
    crate::chars::spec_is_digit(c) || c == '-' || c == ':' || c == ' ' || c == '%'
}

/// The timestamp coercion: only digits, `-`, `:`, blanks and `%` are
/// accepted; a bare date of ten characters gets midnight appended.
pub open spec fn spec_timestamp_checker(s: Seq<char>) -> Option<Seq<char>> {
    if !(forall|i: int| 0 <= i < s.len() ==> spec_ts_char_ok(s[i])) {
        None
    } else if s.len() == 10 {
        Some(s + " 00:00:00"@)
    } else {
        Some(s)
    }
}

/// Checks a timestamp value; see [`spec_timestamp_checker`].
pub fn timestamp_checker(s: String) -> (r: Result<String, SuchError>)
    ensures
        r is Ok <==> spec_timestamp_checker(s@) is Some,
        r is Ok ==> r->Ok_0@ == spec_timestamp_checker(s@)->Some_0,
        r is Err ==> r->Err_0 is ParseError,
{
    let cs = crate::chars::str_to_chars(s.as_str());
    match timestamp_checker_chars(&cs) {
        Ok(v) => Ok(crate::chars::chars_to_string(&v)),
        Err(e) => Err(e),
    }
}

fn timestamp_checker_chars(s: &Vec<char>) -> (r: Result<Vec<char>, SuchError>)
    ensures
        r is Ok <==> spec_timestamp_checker(s@) is Some,
        r is Ok ==> r->Ok_0@ == spec_timestamp_checker(s@)->Some_0,
        r is Err ==> r->Err_0 is ParseError,
{
    let mut i: usize = 0;
    while i < s.len()
        invariant
            i <= s@.len(),
            forall|j: int| 0 <= j < i ==> spec_ts_char_ok(s@[j]),
        decreases s@.len() - i,
    {
        let c = s[i];
        let ok = crate::chars::is_digit(c) || c == '-' || c == ':' || c == ' ' || c == '%';
        if !ok {
            proof {
                assert(!spec_ts_char_ok(s@[i as int]));
            }
            return Err(SuchError::parse_error_chars(s));
        }
        i += 1;
    }
    let mut out: Vec<char> = Vec::new();
    crate::chars::append_vec(&mut out, s);
    if s.len() == 10 {
        crate::chars::append_str(&mut out, " 00:00:00");
        proof {
            assert(Seq::<char>::empty() + s@ + " 00:00:00"@ =~= s@ + " 00:00:00"@);
        }
        Ok(out)
    } else {
        proof {
            assert(Seq::<char>::empty() + s@ =~= s@);
        }
        Ok(out)
    }
}

impl DbType {
    /// The per-type check applied to an escaped value: length for `VARCHAR`,
    /// anything for `TEXT`, charset and midnight completion for `TIMESTAMP`,
    /// a bounded unsigned integer for `INTEGER`, a decimal of limited width
    /// for `NUMERIC`; `BOOL` and `DATE` values never take this route.
    pub open spec fn spec_checker(self, val: Seq<char>) -> Option<Seq<char>> {
        match self {
            DbType::VARCHAR(a) => if val.len() > a {
                None
            } else {
                Some(val)
            },
            DbType::TEXT => Some(val),
            DbType::TIMESTAMP => spec_timestamp_checker(val),
            DbType::INTEGER(min, max) => {
                let c = spec_map_comma(val);
                match spec_parse_u64(spec_strip_pct(c)) {
                    Some(d) => if min <= d && d <= max {
                        Some(c)
                    } else {
                        None
                    },
                    None => None,
                }
            },
            DbType::NUMERIC(len, _) => {
                let c = spec_map_comma(val);
                let num = spec_strip_pct(c);
                if spec_is_decimal(num) && num.len() < len + 1 {
                    Some(c)
                } else {
                    None
                }
            },
            _ => None,
        }
    }

    /// Escape, then check: the value transform every predicate applies; see
    /// [`spec_escape`] and [`DbType::spec_checker`].
    pub open spec fn spec_sql_safe(self, val: Seq<char>) -> Option<Seq<char>> {
        self.spec_checker(spec_escape(val))
    }

    /// Applies the escape transform and this type's check to a raw value.
    pub fn sql_safe_chars(&self, val: &Vec<char>) -> (r: Result<Vec<char>, SuchError>)
        ensures
            r is Ok <==> self.spec_sql_safe(val@) is Some,
            r is Ok ==> r->Ok_0@ == self.spec_sql_safe(val@)->Some_0,
            r is Err ==> r->Err_0 is ParseError,
    {
        let escaped = crate::escape::sql_escape(val);
        self.checker_chars(&escaped)
    }

    /// Applies this type's check to an already escaped value.
    fn checker_chars(&self, val: &Vec<char>) -> (r: Result<Vec<char>, SuchError>)
        ensures
            r is Ok <==> self.spec_checker(val@) is Some,
            r is Ok ==> r->Ok_0@ == self.spec_checker(val@)->Some_0,
            r is Err ==> r->Err_0 is ParseError,
    {
        match self {
            DbType::VARCHAR(a) => {
                if val.len() > *a {
                    Err(SuchError::parse_error_chars(val))
                } else {
                    let mut out: Vec<char> = Vec::new();
                    crate::chars::append_vec(&mut out, val);
                    proof {
                        assert(Seq::<char>::empty() + val@ =~= val@);
                    }
                    Ok(out)
                }
            },
            DbType::TEXT => {
                let mut out: Vec<char> = Vec::new();
                crate::chars::append_vec(&mut out, val);
                proof {
                    assert(Seq::<char>::empty() + val@ =~= val@);
                }
                Ok(out)
            },
            DbType::TIMESTAMP => timestamp_checker_chars(val),
            DbType::INTEGER(min, max) => {
                let c = map_comma(val);
                let stripped = strip_pct(&c);
                match crate::num::parse_u64(&stripped) {
                    Some(d) => {
                        if *min <= d && d <= *max {
                            Ok(c)
                        } else {
                            Err(SuchError::parse_error_chars(val))
                        }
                    },
                    None => Err(SuchError::parse_error_chars(val)),
                }
            },
            DbType::NUMERIC(len, _) => {
                let c = map_comma(val);
                let num = strip_pct(&c);
                let width_ok = num.len() <= *len as usize;
                if crate::num::is_decimal(&num) && width_ok {
                    Ok(c)
                } else {
                    Err(SuchError::parse_error_chars(val))
                }
            },
            _ => Err(SuchError::parse_error_chars(val)),
        }
    }

    /// The simplified bucket shown to users: `TEXT`, `NUMBER`, `BOOL` or
    /// `TIME`.
    pub open spec fn spec_name(self) -> Seq<char> {
        match self {
            DbType::VARCHAR(_) | DbType::TEXT => "TEXT"@,
            DbType::INTEGER(_, _) | DbType::NUMERIC(_, _) => "NUMBER"@,
            DbType::BOOL => "BOOL"@,
            DbType::DATE | DbType::TIMESTAMP => "TIME"@,
        }
    }

    /// Returns the simplified type bucket; see [`DbType::spec_name`].
    pub fn name(&self) -> (r: String)
        ensures
            r@ == self.spec_name(),
    {
        match self {
            DbType::VARCHAR(_) | DbType::TEXT => crate::chars::str_to_string("TEXT"),
            DbType::INTEGER(_, _) | DbType::NUMERIC(_, _) => crate::chars::str_to_string("NUMBER"),
            DbType::BOOL => crate::chars::str_to_string("BOOL"),
            DbType::DATE | DbType::TIMESTAMP => crate::chars::str_to_string("TIME"),
        }
    }
}

/// The ghost image of a field descriptor: what contracts say about a field.
pub ghost struct FieldG {
    /// The column name.
    pub name: Seq<char>,
    /// The column's SQL type.
    pub ty: DbType,
    /// The permission token guarding the column.
    pub permission: Seq<char>,
    /// The user-facing names.
    pub aliases: Seq<Seq<char>>,
}

/// The description of one queryable database column.
#[derive(Debug)]
pub struct DbField {
    /// The column name, injected into SQL verbatim: developer-supplied and
    /// trusted, never derived from user input.
    pub db_name: String,
    /// The column's SQL type.
    pub db_type: DbType,
    /// The permission token a caller must hold to query this column.
    pub permission: String,
    /// The lower-case user-facing names of this column.
    pub alias: Vec<String>,
}

impl View for DbField {
    type V = FieldG;

    open spec fn view(&self) -> FieldG {
        FieldG {
            name: self.db_name@,
            ty: self.db_type,
            permission: self.permission@,
            aliases: self.alias@.map_values(|a: String| a@),
        }
    }
}

impl Clone for DbField {
    /// A copy of the descriptor; it describes the same column.
    fn clone(&self) -> (r: Self)
        ensures
            r@ == self@,
    {
        let mut alias: Vec<String> = Vec::new();
        let mut i: usize = 0;
        while i < self.alias.len()
            invariant
                i <= self.alias@.len(),
                alias@.len() == i,
                forall|j: int| 0 <= j < i ==> alias@[j] == self.alias@[j],
            decreases self.alias@.len() - i,
        {
            alias.push(self.alias[i].clone());
            i += 1;
        }
        let r = DbField {
            db_name: self.db_name.clone(),
            db_type: self.db_type,
            permission: self.permission.clone(),
            alias,
        };
        proof {
            assert(r.alias@ =~= self.alias@);
            assert(r@.aliases =~= self@.aliases);
        }
        r
    }
}

impl DbField {
    /// A new field descriptor; aliases are expected in lower case.
    pub fn new(db_name: &str, db_type: DbType, permission: &str, alias: &[&str]) -> (r: Self)
        ensures
            r.db_name@ == db_name@,
            r.db_type == db_type,
            r.permission@ == permission@,
            r.alias@.len() == alias@.len(),
            forall|i: int| 0 <= i < alias@.len() ==> r.alias@[i]@ == alias@[i]@,
    {
        let mut own: Vec<String> = Vec::new();
        let mut i: usize = 0;
        while i < alias.len()
            invariant
                i <= alias@.len(),
                own@.len() == i,
                forall|j: int| 0 <= j < i ==> own@[j]@ == alias@[j]@,
            decreases alias@.len() - i,
        {
            let a: &str = alias[i];
            own.push(crate::chars::str_to_string(a));
            i += 1;
        }
        DbField {
            db_name: crate::chars::str_to_string(db_name),
            db_type,
            permission: crate::chars::str_to_string(permission),
            alias: own,
        }
    }

    pub fn is_text(&self) -> (r: bool)
        ensures
            r == self@.spec_is_text(),
    {
        match self.db_type {
            DbType::TEXT | DbType::VARCHAR(_) => true,
            _ => false,
        }
    }

    /// Returns all aliases by which this field can be addressed, bracketed
    /// and comma-separated.
    pub fn aliases(&self) -> (r: String)
        ensures
            r@ == self@.spec_aliases(),
    {
        let mut out: Vec<char> = Vec::new();
        out.push('[');
        let ghost names = self@.aliases;
        let mut i: usize = 0;
        while i < self.alias.len()
            invariant
                i <= self.alias@.len(),
                names == self@.aliases,
                names.len() == self.alias@.len(),
                out@ == seq!['['] + spec_join(names.subrange(0, i as int), ", "@),
            decreases self.alias@.len() - i,
        {
            if i > 0 {
                crate::chars::append_str(&mut out, ", ");
            }
            crate::chars::append_str(&mut out, self.alias[i].as_str());
            proof {
                lemma_join_push(names.subrange(0, i as int), names[i as int], ", "@);
                assert(names.subrange(0, i as int).push(names[i as int]) =~= names.subrange(
                    0,
                    i + 1,
                ));
                if i == 0 {
                    assert(seq!['['] + (Seq::<char>::empty() + names[0]) =~= seq!['[']
                        + names[0]);
                    assert(spec_join(names.subrange(0, 1), ", "@) == names[0]) by {
                        assert(names.subrange(0, 1).len() == 1);
                    }
                    assert(out@ =~= seq!['['] + spec_join(names.subrange(0, 1), ", "@));
                } else {
                    assert(out@ =~= seq!['['] + spec_join(names.subrange(0, i + 1), ", "@));
                }
            }
            i += 1;
        }
        out.push(']');
        proof {
            assert(names.subrange(0, names.len() as int) =~= names);
            assert(out@ =~= "["@ + spec_join(names, ", "@) + "]"@) by {
                assert("["@ =~= seq!['[']) by {
                    reveal_strlit("[");
                }
                assert("]"@ =~= seq![']']) by {
                    reveal_strlit("]");
                }
            }
        }
        crate::chars::chars_to_string(&out)
    }

    /// Builds the comparison predicate of this field for a raw value; see
    /// [`FieldG::spec_try_eq`].
    pub fn try_sql_eq(&self, eq: CompOp, val: &str, d: Direction, today: &Date) -> (r: Result<
        String,
        SuchError,
    >)
        requires
            valid_date(*today),
        ensures
            r is Ok <==> self@.spec_try_eq(eq, d, val@, *today) is Ok,
            r is Ok ==> r->Ok_0@ == self@.spec_try_eq(eq, d, val@, *today)->Ok_0,
            r is Err ==> r->Err_0.kind() == self@.spec_try_eq(eq, d, val@, *today)->Err_0,
    {
        let cs = crate::chars::str_to_chars(val);
        match self.try_sql_eq_chars(eq, &cs, d, today) {
            Ok(out) => Ok(crate::chars::chars_to_string(&out)),
            Err(e) => Err(e),
        }
    }

    /// Builds the comparison predicate from a value given as characters; see
    /// [`FieldG::spec_try_eq`].
    pub fn try_sql_eq_chars(&self, eq: CompOp, val: &Vec<char>, d: Direction, today: &Date) -> (r:
        Result<Vec<char>, SuchError>)
        requires
            valid_date(*today),
        ensures
            r is Ok <==> self@.spec_try_eq(eq, d, val@, *today) is Ok,
            r is Ok ==> r->Ok_0@ == self@.spec_try_eq(eq, d, val@, *today)->Ok_0,
            r is Err ==> r->Err_0.kind() == self@.spec_try_eq(eq, d, val@, *today)->Err_0,
    {
        let mut out: Vec<char> = Vec::new();
        crate::chars::append_str(&mut out, self.db_name.as_str());
        proof {
            assert(Seq::<char>::empty() + self.db_name@ =~= self@.name);
        }
        match self.db_type {
            DbType::BOOL => {
                match try_bool_chars(val) {
                    Ok(b) => {
                        let is_eq = eq == CompOp::Equal;
                        if b == is_eq {
                            Ok(out)
                        } else {
                            crate::chars::append_str(&mut out, "=false");
                            Ok(out)
                        }
                    },
                    Err(e) => Err(e),
                }
            },
            DbType::NUMERIC(_, _) | DbType::INTEGER(_, _) => {
                match self.db_type.sql_safe_chars(val) {
                    Ok(sv) => {
                        let opc = eq.to_chars();
                        crate::chars::append_vec(&mut out, &opc);
                        crate::chars::append_vec(&mut out, &sv);
                        proof {
                            assert(out@ =~= self@.name + eq.spec_str()
                                + self@.ty.spec_sql_safe(val@)->Some_0);
                        }
                        Ok(out)
                    },
                    Err(e) => Err(e),
                }
            },
            DbType::DATE => {
                if crate::dates::date_guard(val) {
                    Err(SuchError::parse_error_chars(val))
                } else {
                    let vs = crate::chars::chars_to_string(val);
                    match crate::dates::resolve_date(today, d, vs.as_str()) {
                        Ok(ds) => {
                            let opc = eq.to_chars();
                            crate::chars::append_vec(&mut out, &opc);
                            out.push('\'');
                            crate::chars::append_str(&mut out, ds.as_str());
                            out.push('\'');
                            proof {
                                assert("'"@ =~= seq!['\'']) by {
                                    reveal_strlit("'");
                                }
                                assert(out@ =~= self@.name + eq.spec_str() + "'"@
                                    + spec_resolved_date(
                                    today.year as int,
                                    today.month as int,
                                    today.day as int,
                                    d is To,
                                    val@,
                                )->Some_0 + "'"@);
                            }
                            Ok(out)
                        },
                        Err(e) => Err(e),
                    }
                }
            },
            _ => {
                match self.db_type.sql_safe_chars(val) {
                    Ok(sv) => {
                        let opc = eq.to_chars();
                        crate::chars::append_vec(&mut out, &opc);
                        out.push('\'');
                        crate::chars::append_vec(&mut out, &sv);
                        out.push('\'');
                        proof {
                            assert("'"@ =~= seq!['\'']) by {
                                reveal_strlit("'");
                            }
                            assert(out@ =~= self@.name + eq.spec_str() + "'"@
                                + self@.ty.spec_sql_safe(val@)->Some_0 + "'"@);
                        }
                        Ok(out)
                    },
                    Err(e) => Err(e),
                }
            },
        }
    }

    /// Builds the `LIKE` predicate of this field for a glob value; see
    /// [`FieldG::spec_try_like`].
    pub fn try_sql_like(&self, val: &str) -> (r: Result<String, SuchError>)
        ensures
            r is Ok <==> self@.spec_try_like(val@) is Ok,
            r is Ok ==> r->Ok_0@ == self@.spec_try_like(val@)->Ok_0,
            r is Err ==> r->Err_0.kind() == self@.spec_try_like(val@)->Err_0,
    {
        let cs = crate::chars::str_to_chars(val);
        match self.try_sql_like_chars(&cs) {
            Ok(out) => Ok(crate::chars::chars_to_string(&out)),
            Err(e) => Err(e),
        }
    }

    /// Builds the `LIKE` predicate from a value given as characters; see
    /// [`FieldG::spec_try_like`].
    pub fn try_sql_like_chars(&self, val: &Vec<char>) -> (r: Result<Vec<char>, SuchError>)
        ensures
            r is Ok <==> self@.spec_try_like(val@) is Ok,
            r is Ok ==> r->Ok_0@ == self@.spec_try_like(val@)->Ok_0,
            r is Err ==> r->Err_0.kind() == self@.spec_try_like(val@)->Err_0,
    {
        let mut out: Vec<char> = Vec::new();
        crate::chars::append_str(&mut out, self.db_name.as_str());
        proof {
            assert(Seq::<char>::empty() + self.db_name@ =~= self@.name);
        }
        match self.db_type {
            DbType::VARCHAR(_) | DbType::TEXT => {
                match self.db_type.sql_safe_chars(val) {
                    Ok(sv) => {
                        crate::chars::append_str(&mut out, " LIKE '");
                        crate::chars::append_vec(&mut out, &sv);
                        crate::chars::append_str(&mut out, "'");
                        proof {
                            assert(out@ =~= self@.name + " LIKE '"@
                                + self@.ty.spec_sql_safe(val@)->Some_0 + "'"@);
                        }
                        Ok(out)
                    },
                    Err(e) => Err(e),
                }
            },
            DbType::DATE | DbType::TIMESTAMP => Err(SuchError::LikeNotPossible),
            _ => {
                match self.db_type.sql_safe_chars(val) {
                    Ok(sv) => {
                        crate::chars::append_str(&mut out, "::TEXT LIKE '");
                        crate::chars::append_vec(&mut out, &sv);
                        crate::chars::append_str(&mut out, "'");
                        proof {
                            assert(out@ =~= self@.name + "::TEXT LIKE '"@
                                + self@.ty.spec_sql_safe(val@)->Some_0 + "'"@);
                        }
                        Ok(out)
                    },
                    Err(e) => Err(e),
                }
            },
        }
    }

    /// Returns the simplified type bucket of this field.
    pub fn db_type(&self) -> (r: String)
        ensures
            r@ == self.db_type.spec_name(),
    {
        self.db_type.name()
    }
}

impl FieldG {
    /// Whether this column holds text, making it eligible for bare-word
    /// fuzzy search.
    pub open spec fn spec_is_text(self) -> bool {
        self.ty is TEXT || self.ty is VARCHAR
    }

    /// The aliases line of this field: `[alias1, alias2, …]`.
    pub open spec fn spec_aliases(self) -> Seq<char> {
        "["@ + spec_join(self.aliases, ", "@) + "]"@
    }

    /// The comparison predicate of this field for a raw value: booleans
    /// collapse to the bare column name or `name=false`, numbers are emitted
    /// unquoted after coercion, dates are resolved against `today` and
    /// quoted, and everything else is escaped and quoted.
    pub open spec fn spec_try_eq(
        self,
        eq: CompOp,
        d: Direction,
        v: Seq<char>,
        today: Date,
    ) -> Result<Seq<char>, ErrKind> {
        match self.ty {
            DbType::BOOL => match spec_try_bool(v) {
                Some(b) => if b == (eq is Equal) {
                    Ok(self.name)
                } else {
                    Ok(self.name + "=false"@)
                },
                None => Err(ErrKind::Parse),
            },
            DbType::NUMERIC(_, _) | DbType::INTEGER(_, _) => match self.ty.spec_sql_safe(v) {
                Some(sv) => Ok(self.name + eq.spec_str() + sv),
                None => Err(ErrKind::Parse),
            },
            DbType::DATE => if spec_date_guard(v) {
                Err(ErrKind::Parse)
            } else {
                match spec_resolved_date(
                    today.year as int,
                    today.month as int,
                    today.day as int,
                    d is To,
                    v,
                ) {
                    Some(ds) => if crate::dates::date_shaped(ds) {
                        Ok(self.name + eq.spec_str() + "'"@ + ds + "'"@)
                    } else {
                        Err(ErrKind::Parse)
                    },
                    None => Err(ErrKind::Parse),
                }
            },
            _ => match self.ty.spec_sql_safe(v) {
                Some(sv) => Ok(self.name + eq.spec_str() + "'"@ + sv + "'"@),
                None => Err(ErrKind::Parse),
            },
        }
    }

    /// The `LIKE` predicate of this field for a glob value: text columns
    /// compare directly, dates cannot carry a `LIKE`, and other columns are
    /// cast to text first.
    pub open spec fn spec_try_like(self, v: Seq<char>) -> Result<Seq<char>, ErrKind> {
        match self.ty {
            DbType::VARCHAR(_) | DbType::TEXT => match self.ty.spec_sql_safe(v) {
                Some(sv) => Ok(self.name + " LIKE '"@ + sv + "'"@),
                None => Err(ErrKind::Parse),
            },
            DbType::DATE | DbType::TIMESTAMP => Err(ErrKind::Like),
            _ => match self.ty.spec_sql_safe(v) {
                Some(sv) => Ok(self.name + "::TEXT LIKE '"@ + sv + "'"@),
                None => Err(ErrKind::Parse),
            },
        }
    }
}

/// The sequence `ss` joined with the separator `sep` between the parts.
pub open spec fn spec_join(ss: Seq<Seq<char>>, sep: Seq<char>) -> Seq<char>
    decreases ss.len(),
{
    if ss.len() == 0 {
        Seq::empty()
    } else if ss.len() == 1 {
        ss[0]
    } else {
        ss[0] + sep + spec_join(ss.subrange(1, ss.len() as int), sep)
    }
}

/// Appending one more part extends a join by one separator and the part.
pub proof fn lemma_join_push(ss: Seq<Seq<char>>, x: Seq<char>, sep: Seq<char>)
    ensures
        spec_join(ss.push(x), sep) == if ss.len() == 0 {
            x
        } else {
            spec_join(ss, sep) + sep + x
        },
    decreases ss.len(),
{
    let p = ss.push(x);
    if ss.len() == 0 {
        assert(p.len() == 1);
        assert(p[0] == x);
    } else if ss.len() == 1 {
        assert(p.len() == 2);
        assert(p.subrange(1, 2) =~= seq![x]);
        assert(spec_join(seq![x], sep) == x);
        assert(spec_join(p, sep) == ss[0] + sep + x);
        assert(spec_join(ss, sep) == ss[0]);
    } else {
        let t = ss.subrange(1, ss.len() as int);
        lemma_join_push(t, x, sep);
        assert(p.subrange(1, p.len() as int) =~= t.push(x));
        assert(spec_join(p, sep) == p[0] + sep + spec_join(t.push(x), sep));
        assert(spec_join(t.push(x), sep) == spec_join(t, sep) + sep + x);
        assert(ss[0] + sep + (spec_join(t, sep) + sep + x) =~= (ss[0] + sep + spec_join(t, sep))
            + sep + x);
    }
}

/// The ghost image of a sort entry.
pub ghost struct SortG {
    /// Whether this field sorts descending.
    pub desc: bool,
    /// The field to sort by.
    pub field: FieldG,
}

/// One entry of the `ORDER BY` list: a field and its direction.
#[derive(Debug)]
pub struct SortField {
    /// Whether this field sorts descending.
    pub desc: bool,
    /// The field to sort by.
    pub field: DbField,
}

impl View for SortField {
    type V = SortG;

    open spec fn view(&self) -> SortG {
        SortG { desc: self.desc, field: self.field@ }
    }
}

impl SortG {
    /// The `ORDER BY` entry: the column name, with ` DESC` appended when
    /// descending.
    pub open spec fn spec_to_sql(self) -> Seq<char> {
        if self.desc {
            self.field.name + " DESC"@
        } else {
            self.field.name
        }
    }
}

impl SortField {

    /// Renders this sort entry for the `ORDER BY` list.
    pub fn to_sql(&self) -> (r: String)
        ensures
            r@ == self@.spec_to_sql(),
    {
        let mut out: Vec<char> = Vec::new();
        crate::chars::append_str(&mut out, self.field.db_name.as_str());
        if self.desc {
            crate::chars::append_str(&mut out, " DESC");
        }
        proof {
            if self.desc {
                assert(Seq::<char>::empty() + self.field.db_name@ + " DESC"@
                    =~= self.field.db_name@ + " DESC"@);
            } else {
                assert(Seq::<char>::empty() + self.field.db_name@ =~= self.field.db_name@);
            }
        }
        crate::chars::chars_to_string(&out)
    }
}

} // verus!
