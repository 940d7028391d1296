use suchbar::dates::Date;
use suchbar::db_field::{timestamp_checker, try_bool, SortField};
use suchbar::CompOp;
use suchbar::DbField;
use suchbar::DbType::{BOOL, DATE, INTEGER, NUMERIC, TEXT, VARCHAR};
use suchbar::Direction::From;
use suchbar::PermissionSet;
use suchbar::SQLTerm;
use suchbar::SQLTerm::{LIKE, NOT, VALUE};
use suchbar::Style;
use suchbar::Suchbar;

fn schema() -> Vec<DbField> {
    vec![
        DbField::new("artikelnummer", VARCHAR(18), "READ_OFFER", &["art", "ano"]),
        DbField::new("positionstext", TEXT, "READ_OFFER", &["ptext", "desc"]),
        DbField::new("price", NUMERIC(12, 2), "READ_OFFER", &["price", "p"]),
        DbField::new("age", INTEGER(0, 150), "ACCESS_PRIVATE", &["age"]),
        DbField::new("aktiv", BOOL, "READ_OFFER", &["akt"]),
        DbField::new("changed", DATE, "READ_OFFER", &["ch"]),
    ]
}

fn admin() -> PermissionSet {
    PermissionSet::new(&["ACCESS_PRIVATE", "READ_OFFER"])
}

#[test]
fn comparator_parse_and_negate() {
    assert!(matches!(CompOp::parse("=="), Ok(CompOp::Equal)));
    assert!(matches!(CompOp::parse("=!"), Ok(CompOp::NotEqual)));
    assert!(matches!(CompOp::parse("=>"), Ok(CompOp::Gte)));
    assert!(matches!(CompOp::parse("=<"), Ok(CompOp::Lte)));
    assert!(matches!(CompOp::parse(">"), Ok(CompOp::Gt)));
    assert!(matches!(CompOp::parse("<"), Ok(CompOp::Lt)));
    assert!(CompOp::parse("<>").is_err());
    assert!(CompOp::parse("").is_err());
    let all = [
        CompOp::Equal,
        CompOp::NotEqual,
        CompOp::Gt,
        CompOp::Lt,
        CompOp::Gte,
        CompOp::Lte,
    ];
    for c in all {
        assert_eq!(c.negate().negate(), c);
    }
    assert_eq!(CompOp::Gte.to_text(), ">=");
    assert_eq!(CompOp::NotEqual.to_text(), "!=");
}

#[test]
fn boolean_token_table() {
    for t in ["1", "true", "wahr", "yes", "ja", "y", "j", "t", "w", " TRUE ", "Ja"] {
        assert_eq!(try_bool(t).unwrap(), true);
    }
    for t in ["0", "false", "falsch", "unwahr", "no", "not", "nein", "n", "f", " NO "] {
        assert_eq!(try_bool(t).unwrap(), false);
    }
    assert!(try_bool("maybe").is_err());
    assert!(try_bool("").is_err());
}

#[test]
fn bool_field_collapses() {
    let sb = Suchbar::new(schema());
    let s = sb.exec(&admin(), "akt=yes").unwrap();
    assert_eq!("aktiv", s.where_clause().unwrap());
    let s = sb.exec(&admin(), "akt=no").unwrap();
    assert_eq!("aktiv=false", s.where_clause().unwrap());
    let s = sb.exec(&admin(), "akt!=yes").unwrap();
    assert_eq!("NOT aktiv", s.where_clause().unwrap());
}

#[test]
fn timestamp_coercion() {
    assert_eq!(timestamp_checker("2022-09-01".to_string()).unwrap(), "2022-09-01 00:00:00");
    assert_eq!(
        timestamp_checker("2022-09-01 23:30:00".to_string()).unwrap(),
        "2022-09-01 23:30:00"
    );
    assert!(timestamp_checker("today".to_string()).is_err());
}

#[test]
fn glob_escaping_in_output() {
    let sb = Suchbar::new(schema());
    // A literal percent and underscore come out escaped, user wildcards do not.
    let s = sb.exec(&admin(), "ptext=100%_done*").unwrap();
    assert_eq!("positionstext LIKE '100\\%\\_done%'", s.where_clause().unwrap());
    // `?` becomes the single-character wildcard inside a glob value.
    let s = sb.exec(&admin(), "art=23?2*").unwrap();
    assert_eq!("artikelnummer LIKE '23_2%'", s.where_clause().unwrap());
}

#[test]
fn quote_doubling_in_literals() {
    let sb = Suchbar::new(schema());
    // The apostrophe in the value comes out doubled in the emitted literal.
    let s = sb.exec(&admin(), r#"ptext="Micha's cat*""#).unwrap();
    assert_eq!("positionstext LIKE 'Micha''s cat%'", s.where_clause().unwrap());
}

#[test]
fn double_negation_is_identity() {
    let sb = Suchbar::new(schema());
    let once = sb.exec(&admin(), "age=123").unwrap();
    let twice = sb.exec(&admin(), "!!age=123").unwrap();
    assert_eq!(once.to_sql(""), twice.to_sql(""));
    let neg = sb.exec(&admin(), "!age=123").unwrap();
    let triple = sb.exec(&admin(), "!!!age=123").unwrap();
    assert_eq!(neg.to_sql(""), triple.to_sql(""));
}

#[test]
fn quote_styles_give_identical_sql() {
    let sb = Suchbar::new(schema());
    let single = sb.exec(&admin(), "ptext='AAA BBB'").unwrap();
    let double = sb.exec(&admin(), "ptext=\"AAA BBB\"").unwrap();
    assert_eq!(single.to_sql("WHERE"), double.to_sql("WHERE"));
    assert_eq!(" WHERE positionstext='AAA BBB'", double.to_sql("WHERE"));
}

#[test]
fn qualified_query_single_predicate() {
    let sb = Suchbar::new(schema());
    let s = sb.exec(&admin(), "age=7").unwrap();
    // No OR fan-out: the single predicate stands alone, unparenthesized.
    assert_eq!("age=7", s.where_clause().unwrap());
}

#[test]
fn range_emission_shape() {
    let sb = Suchbar::new(schema());
    let s = sb.exec(&admin(), "p=10-19").unwrap();
    assert_eq!("( price>=10 AND price<19 )", s.where_clause().unwrap());
}

#[test]
fn varchar_too_long_is_dropped() {
    let sb = Suchbar::new(schema());
    // 19 characters exceed VARCHAR(18); the branch errors and the output is empty.
    let s = sb.exec(&admin(), "art=AAAAAAAAAAAAAAAAAAA").unwrap();
    assert!(s.where_clause().is_err());
    assert_eq!("", s.to_sql("WHERE"));
}

#[test]
fn like_on_date_not_possible() {
    let f = DbField::new("changed", DATE, "READ_OFFER", &["ch"]);
    let r = f.try_sql_like("2022*");
    assert!(r.is_err());
    let sb = Suchbar::new(schema());
    // A glob on the date column is swallowed, leaving nothing to emit.
    let s = sb.exec(&admin(), "ch=2022*").unwrap();
    assert!(s.where_clause().is_err());
    assert_eq!("", s.to_sql(""));
}

#[test]
fn empty_query_is_empty_sql() {
    let sb = Suchbar::new(schema());
    let s = sb.exec(&admin(), "").unwrap();
    assert_eq!("", s.to_sql("WHERE"));
    assert_eq!("", s.order_by());
}

#[test]
fn unterminated_quote_is_parse_error() {
    let sb = Suchbar::new(schema());
    assert!(sb.exec(&admin(), "ptext='abc").is_err());
}

#[test]
fn explanation_lists_permitted_fields() {
    let sb = Suchbar::new(schema());
    let restricted = PermissionSet::new(&["READ_OFFER"]);
    let text = sb.explanation(&restricted);
    assert!(text.contains("[art, ano] TEXT\n"));
    assert!(text.contains("[price, p] NUMBER\n"));
    assert!(text.contains("[akt] BOOL\n"));
    assert!(text.contains("[ch] TIME\n"));
    assert!(!text.contains("age"));
    let full = sb.explanation(&admin());
    assert!(full.contains("[age] NUMBER\n"));
}

#[test]
fn sort_field_rendering() {
    let f = DbField::new("price", NUMERIC(12, 2), "READ_OFFER", &["p"]);
    let asc = SortField { desc: false, field: f.clone() };
    assert_eq!("price", asc.to_sql());
    let desc = SortField { desc: true, field: f };
    assert_eq!("price DESC", desc.to_sql());
}

#[test]
fn textual_rendering_styles() {
    let f = DbField::new("age", INTEGER(0, 150), "ACCESS_PRIVATE", &["age"]);
    let t = SQLTerm::AND(vec![
        VALUE(f.clone(), CompOp::Gt, From, "5".into()),
        NOT(Box::new(VALUE(f.clone(), CompOp::Equal, From, "7".into()))),
    ]);
    assert_eq!("(age>5&&age!=7)", t.as_text(Style::Compact).unwrap());
    assert_eq!("(age>5 && age!=7)", t.as_text(Style::Pretty).unwrap());
    let single = LIKE(f, "5*".into());
    assert_eq!("age=5*", single.as_text(Style::Compact).unwrap());
}

#[test]
fn emission_at_fixed_date() {
    let f = DbField::new("changed", DATE, "READ_OFFER", &["ch"]);
    let t = VALUE(f, CompOp::Gte, From, "2022-12-24".into());
    let r = t.to_sql_at(&Date::new(2023, 6, 15)).unwrap();
    assert_eq!("changed>='2022-12-24'", r);
}

#[test]
fn date_guard_rejects_zero_month() {
    let sb = Suchbar::new(schema());
    // A date token with a zero month is rejected instead of reaching the
    // resolver; the branch is swallowed and nothing is emitted.
    let s = sb.exec(&admin(), "ch=2023-0-5").unwrap();
    assert!(s.where_clause().is_err());
    assert_eq!("", s.to_sql(""));
}

#[test]
fn errors_have_messages() {
    let sb = Suchbar::new(schema());
    let e = sb.exec(&admin(), "ptext='abc").unwrap_err();
    assert!(!e.message().is_empty());
    let f = DbField::new("changed", DATE, "READ_OFFER", &["ch"]);
    let e2 = f.try_sql_like("x*").unwrap_err();
    assert_eq!("LIKE not possible", e2.message());
    let e3 = SQLTerm::DENIED.to_sql().unwrap_err();
    assert_eq!("DENIED", e3.message());
}

#[test]
fn symbolic_connectives() {
    let sb = Suchbar::new(schema());
    let w = sb.exec(&admin(), "age=1 && age=2").unwrap();
    assert_eq!("( age=1 AND age=2 )", w.where_clause().unwrap());
    let w = sb.exec(&admin(), "age=1 || age=2").unwrap();
    assert_eq!("( age=1 OR age=2 )", w.where_clause().unwrap());
}

#[test]
fn parenthesized_groups() {
    let sb = Suchbar::new(schema());
    let w = sb.exec(&admin(), "(age=1 OR age=2) AND ptext=x").unwrap();
    assert_eq!("( ( age=1 OR age=2 ) AND positionstext='x' )", w.where_clause().unwrap());
}

#[test]
fn stray_tokens_are_rejected() {
    let sb = Suchbar::new(schema());
    assert!(sb.exec(&admin(), "age=1)").is_err());
    assert!(sb.exec(&admin(), "a & b").is_err());
    assert!(sb.exec(&admin(), "(age=1").is_err());
}

#[test]
fn numeric_width_limit() {
    let sb = Suchbar::new(schema());
    // Twelve significant digits fit NUMERIC(12, 2); thirteen do not.
    let w = sb.exec(&admin(), "p=123456789012").unwrap();
    assert_eq!("price=123456789012", w.where_clause().unwrap());
    let w = sb.exec(&admin(), "p=1234567890123").unwrap();
    assert!(w.where_clause().is_err());
}

