use suchbar::dates::Date;
use suchbar::CompOp;
use suchbar::DbField;
use suchbar::DbType::{BOOL, DATE, INTEGER, NUMERIC, TEXT, TIMESTAMP, VARCHAR};
use suchbar::Direction::From;
use suchbar::Permeable;
use suchbar::PermissionSet;
use suchbar::SQLTerm::{AND, LIKE, NOT, OR, VALUE};
use suchbar::SuchOptions;
use suchbar::Suchbar;

fn suchbar() -> Suchbar {
    Suchbar::new(vec![
        DbField::new(
            "artikelnummer",
            VARCHAR(18),
            "READ_OFFER",
            &["art", "artnr", "artikelnummer", "artikelnr", "ano"],
        ),
        DbField::new(
            "positionstext",
            TEXT,
            "READ_OFFER",
            &["beschreibung", "desc", "description", "ptext"],
        ),
        DbField::new("price", NUMERIC(12, 2), "READ_OFFER", &["preis", "price", "p"]),
        DbField::new("age", INTEGER(0, 150), "ACCESS_PRIVATE", &["alter", "age"]),
        DbField::new(
            "promille",
            INTEGER(1, 1000),
            "ACCESS_PRIVATE",
            &["number", "nummer", "promille"],
        ),
        DbField::new("changed", DATE, "READ_OFFER", &["changed", "ch"]),
    ])
}

fn likebar() -> Suchbar {
    Suchbar::with_options(
        vec![
            DbField::new(
                "artikelnummer",
                VARCHAR(18),
                "READ_OFFER",
                &["art", "artnr", "artikelnummer", "artikelnr", "ano"],
            ),
            DbField::new(
                "positionstext",
                TEXT,
                "READ_OFFER",
                &["beschreibung", "desc", "description", "ptext"],
            ),
            DbField::new("price", NUMERIC(12, 2), "READ_OFFER", &["preis", "price", "p"]),
            DbField::new("age", INTEGER(0, 150), "ACCESS_PRIVATE", &["alter", "age"]),
            DbField::new(
                "promille",
                INTEGER(1, 1000),
                "ACCESS_PRIVATE",
                &["number", "nummer", "promille"],
            ),
            DbField::new("changed", DATE, "READ_OFFER", &["changed", "ch"]),
        ],
        SuchOptions { like_in_numerics: true },
    )
}

fn admin() -> PermissionSet {
    PermissionSet::new(&["ACCESS_PRIVATE", "READ_OFFER"])
}

fn user() -> PermissionSet {
    PermissionSet::new(&["ANYTHING_ELSE", "READ_OFFER"])
}

fn mid_2023() -> Date {
    Date::new(2023, 6, 15)
}

#[test]
fn op_to_sql() {
    let artikel = DbField::new("article", VARCHAR(200), "READ_OFFER", &["artnr", "artikelnr"]);
    let active = DbField::new("aktiv", BOOL, "READ_OFFER", &["akt"]);
    let end_date = DbField::new("end_date", DATE, "READ_OFFER", &["enddate", "end_date"]);
    let name = DbField::new("ma_active", VARCHAR(32), "READ_OFFER", &["akt"]);
    let price = DbField::new("price", INTEGER(0, 2000), "READ_OFFER_PRICE", &["price"]);
    let changed = DbField::new("changed", TIMESTAMP, "READ_OFFER", &["changed", "updated"]);

    let df = AND(vec![
        VALUE(artikel, CompOp::Gt, From, "1245667".into()),
        OR(vec![
            NOT(Box::new(VALUE(active, CompOp::Equal, From, "false".into()))),
            VALUE(end_date, CompOp::Lte, From, "2022-12-24".into()),
            LIKE(name, "Micha's cat*".into()),
        ]),
    ]);
    assert_eq!(
        df.to_sql().unwrap(),
        "( article>'1245667' AND ( NOT aktiv=false OR end_date<=\
        '2022-12-24' OR ma_active LIKE 'Micha''s cat%' ) )"
    );

    let df = VALUE(price.clone(), CompOp::Equal, From, "1000.0".into());
    assert!(df.to_sql().is_err());
    let df = VALUE(price, CompOp::Equal, From, "1000".into());
    assert_eq!(df.to_sql().unwrap_or_default(), "price=1000");

    let df = VALUE(changed.clone(), CompOp::Gte, From, "2022-09-01".into());
    assert_eq!(df.to_sql().unwrap_or_default(), "changed>='2022-09-01 00:00:00'");
    let df = VALUE(changed.clone(), CompOp::Lt, From, "2022-09-01 23:30:00".into());
    assert_eq!(df.to_sql().unwrap_or_default(), "changed<'2022-09-01 23:30:00'");

    let df = VALUE(changed, CompOp::Lt, From, "2022-09-01 23:30:00 MEZ".into());
    assert!(df.to_sql().is_err());
}

#[test]
fn give_permission() {
    assert_eq!(admin().has_perm("READ_OFFER"), true);
    assert_eq!(admin().has_perm("ACCESS_PRIVATE"), true);
    assert_eq!(user().has_perm("READ_OFFER"), true);
    assert_eq!(user().has_perm("ACCESS_PRIVATE"), false);
}

#[test]
fn parse_not_equal_as_admin() {
    let s = suchbar().exec(&admin(), "age!=123").expect("This should not panic!");
    assert_eq!("  NOT age=123", s.to_sql(""));
    let s = suchbar().exec(&admin(), "NOT age=123").expect("This should not panic!");
    assert_eq!("  NOT age=123", s.to_sql(""));
    let s = suchbar().exec(&admin(), "ptext!=A").expect("This should not panic!");
    assert_eq!("  NOT positionstext='A'", s.to_sql(""));

    let s = suchbar().exec(&admin(), " ptext != AAA*").expect("This should not panic!");
    assert_eq!("  NOT positionstext LIKE 'AAA%'", s.to_sql(""));

    let s = suchbar().exec(&admin(), "NOT ptext == AAA*").expect("This should not panic!");
    assert_eq!("  NOT positionstext LIKE 'AAA%'", s.to_sql(""));

    let s = suchbar().exec(&admin(), "NOT ptext != AAA*").expect("This should not panic!");
    assert_eq!("  positionstext LIKE 'AAA%'", s.to_sql(""));
}

#[test]
fn parse_and_concat() {
    let s = suchbar().exec(&admin(), "age=123 AND ptext=AAA").expect("This should not panic!");
    assert_eq!("( age=123 AND positionstext='AAA' )", s.where_clause().unwrap_or_default());
    let s = suchbar().exec(&admin(), "art=123* AND ptext=AAA").expect("This should not panic!");
    assert_eq!(
        "( artikelnummer LIKE '123%' AND positionstext='AAA' )",
        s.where_clause().unwrap_or_default()
    );
}

#[test]
fn parse_not_equal_as_user() {
    let s = suchbar().exec(&user(), "age!=123").expect("This should not panic!");
    assert_eq!("", s.to_sql(""));
    let s = suchbar().exec(&user(), "NOT age=123").expect("This should not panic!");
    assert_eq!("", s.to_sql(""));
    let s = suchbar().exec(&user(), "ptext!=A").expect("This should not panic!");
    assert_eq!("  NOT positionstext='A'", s.to_sql(""));

    let s = suchbar().exec(&user(), " ptext != AAA*").expect("This should not panic!");
    assert_eq!("  NOT positionstext LIKE 'AAA%'", s.to_sql(""));

    let s = suchbar().exec(&user(), "NOT ptext == AAA*").expect("This should not panic!");
    assert_eq!("  NOT positionstext LIKE 'AAA%'", s.to_sql(""));

    let s = suchbar().exec(&user(), "NOT ptext != AAA*").expect("This should not panic!");
    assert_eq!("  positionstext LIKE 'AAA%'", s.to_sql(""));
}

#[test]
fn parse_integer_query_std() {
    let s = suchbar().exec(&admin(), "123").expect("This should not panic!");
    assert_eq!(
        "  ( artikelnummer LIKE '%123%' OR positionstext LIKE '%123%' OR \
        price=123 OR age=123 OR promille=123 )",
        s.to_sql("")
    );
    let s = suchbar().exec(&admin(), "1234").expect("This should not panic!");
    assert_eq!(
        "  ( artikelnummer LIKE '%1234%' OR positionstext LIKE '%1234%' \
        OR price=1234 )",
        s.to_sql("")
    );
}

#[test]
fn parse_integer_query_like() {
    let s = likebar().exec(&admin(), "123").expect("This should not panic!");
    assert_eq!(
        "  ( artikelnummer LIKE '%123%' OR positionstext LIKE '%123%' OR price::TEXT LIKE '%123%' \
        OR age::TEXT LIKE '%123%' OR promille::TEXT LIKE '%123%' )",
        s.to_sql("")
    );
    let s = likebar().exec(&admin(), "1234").expect("This should not panic!");
    assert_eq!(
        "  ( artikelnummer LIKE '%1234%' OR positionstext LIKE '%1234%' OR \
        price::TEXT LIKE '%1234%' )",
        s.to_sql("")
    );
}

#[test]
fn parse_like_query() {
    let s = suchbar().exec(&admin(), "art='2332*'").expect("This should not panic!");
    assert_eq!("  artikelnummer LIKE '2332%'", s.to_sql(""));
    let s = suchbar().exec(&admin(), "art=2332*").expect("This should not panic!");
    assert_eq!("  artikelnummer LIKE '2332%'", s.to_sql(""));
    let s = suchbar().exec(&admin(), "art=2332$").expect("This should not panic!");
    assert_eq!("  artikelnummer LIKE '%2332'", s.to_sql(""));
    let s = suchbar().exec(&admin(), "art='*2332*'").expect("This should not panic!");
    assert_eq!("  artikelnummer LIKE '%2332%'", s.to_sql(""));
    let s = suchbar().exec(&admin(), "art=^'2332'").expect("This should not panic!");
    assert_eq!("  artikelnummer LIKE '2332%'", s.to_sql(""));
}

#[test]
fn parse_misc_query() {
    let query = r#"ano!=23342 AND (desc=^"irgend ein langer Text!" OR price='35,12'); artnr, ^nummer, age"#;
    let s = suchbar().exec(&admin(), query).expect("This should not panic!");
    assert_eq!(
        "  ( NOT artikelnummer='23342' AND ( positionstext LIKE 'irgend ein langer Text!%' \
        OR price=35.12 ) ) ORDER BY artikelnummer, promille DESC, age",
        s.to_sql("")
    );
}

#[test]
fn parse_from_to_values() {
    let s = suchbar().exec(&admin(), "age=10-19").expect("This should not panic!");
    assert_eq!("  ( age>=10 AND age<19 )", s.to_sql(""));
}

#[test]
fn parse_like_somewhere() {
    let s = suchbar().exec(&admin(), "*Superman*").expect("This should not panic!");
    assert_eq!(
        " WHERE ( artikelnummer LIKE '%Superman%' OR positionstext LIKE '%Superman%' )",
        s.to_sql("WHERE")
    );

    let s = suchbar().exec(&admin(), "Superman Batman").expect("This should not panic!");
    assert_eq!(
        " WHERE ( ( artikelnummer LIKE '%Superman%' OR positionstext LIKE '%Superman%' ) AND \
        ( artikelnummer LIKE '%Batman%' OR positionstext LIKE '%Batman%' ) )",
        s.to_sql("WHERE")
    );
    let s = suchbar().exec(&admin(), "artnr = *5*").expect("This should not panic!");
    assert_eq!(" WHERE artikelnummer LIKE '%5%'", s.to_sql("WHERE"));
}

#[test]
fn parse_iso_dates() {
    let s = suchbar().exec(&admin(), "ch=2022-12-24").expect("This should not panic!");
    assert_eq!(" WHERE changed='2022-12-24'", s.to_sql("WHERE"));

    let s = suchbar().exec(&admin(), r#"ch="2022-12-24""#).expect("This should not panic!");
    assert_eq!(" WHERE changed='2022-12-24'", s.to_sql("WHERE"));
}

#[test]
fn parse_natural_language_dates() {
    let s = suchbar().exec_at(&admin(), "ch=Jan", mid_2023()).expect("This should not panic!");
    assert_eq!(" WHERE changed='2023-01-01'", s.to_sql("WHERE"));

    let s = suchbar().exec_at(&admin(), r#"ch=24.12.2022"#, mid_2023()).expect(
        "This should not panic!",
    );
    assert_eq!(" WHERE changed='2022-12-24'", s.to_sql("WHERE"));
    let s = suchbar().exec_at(&admin(), r#"ch='Feb'-'Dez'"#, mid_2023()).expect(
        "This should not panic!",
    );
    assert_eq!(" WHERE ( changed>='2023-02-01' AND changed<'2024-01-01' )", s.to_sql("WHERE"));
    let s = suchbar().exec_at(&admin(), r#"ch=Feb-Dez"#, mid_2023()).expect(
        "This should not panic!",
    );
    assert_eq!(" WHERE ( changed>='2023-02-01' AND changed<'2024-01-01' )", s.to_sql("WHERE"));
}

#[test]
fn list_sort_by_fields() {
    let s = suchbar().exec(&admin(), ";age, art").expect("This should not panic!");
    assert_eq!(" ORDER BY age, artikelnummer", s.to_sql("WHERE"));
    let s = suchbar().exec(&admin(), ";art, ^p, ch").expect("This should not panic!");
    assert_eq!(" ORDER BY artikelnummer, price DESC, changed", s.to_sql("WHERE"));
}
