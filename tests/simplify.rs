use rule_compiler::{compile, compile_with, AndClause, Atom, Expression, OrClause, Operation, Operator};

fn stmt(field: &str, operator: Operator, value: u64) -> Expression {
    Expression::Statement(String::from(field), operator, Atom::Number(value))
}

fn text(rule: &str) -> String {
    compile(rule).unwrap().to_string()
}

#[test]
fn parse_round_trips_a_constant_rule() {
    assert_eq!(text("REJECT t WHEN true"), "REJECT t WHEN true");
    assert_eq!(text("filter t when false"), "FILTER t WHEN false");
}

#[test]
fn malformed_rules_fail() {
    // unterminated string
    assert!(compile(r#"REJECT t WHEN x == "abc"#).is_err());
    // missing WHEN
    assert!(compile("REJECT t x == 1").is_err());
    // unknown operation keyword
    assert!(compile("ALLOW t WHEN x == 1").is_err());
    // trailing input
    assert!(compile("REJECT t WHEN x == 1 y").is_err());
    // dangling keyword
    assert!(compile("REJECT t WHEN x == 1 AND").is_err());
    assert!(compile("REJECT t WHEN x == 1 OR").is_err());
    // empty field name
    assert!(compile("REJECT t WHEN ==1").is_err());
    // empty string payload
    assert!(compile(r#"REJECT t WHEN x == """#).is_err());
    // a number that does not fit in 64 bits
    assert!(compile("REJECT t WHEN x == 18446744073709551616").is_err());
    assert!(compile("REJECT t WHEN x == 18446744073709551615").is_ok());
}

#[test]
fn keywords_ignore_case_and_spacing() {
    assert_eq!(text("ReJeCt t WhEn x==1 aNd y!=2 oR z==3"), "REJECT t WHEN x == 1 AND y != 2 OR z == 3");
    assert_eq!(text("REJECT t WHEN\tx ==\n1  "), "REJECT t WHEN x == 1");
}

#[test]
fn string_payloads_and_escapes() {
    assert_eq!(text(r#"REJECT t WHEN x == "/usr/bin_ls""#), r#"REJECT t WHEN x == "/usr/bin_ls""#);
    assert_eq!(text(r#"REJECT t WHEN x == "a\\b""#), r#"REJECT t WHEN x == "a\\b""#);
    assert_eq!(text("REJECT t WHEN x == \"a\\\nb\""), "REJECT t WHEN x == \"anb\"");
    // unicode letters are alphanumeric, a dash is not
    assert_eq!(text("REJECT t WHEN x == \"caf\u{e9}\""), "REJECT t WHEN x == \"caf\u{e9}\"");
    assert!(compile(r#"REJECT t WHEN x == "a-b""#).is_err());
    // an unknown escape fails
    assert!(compile(r#"REJECT t WHEN x == "a\tb""#).is_err());
}

#[test]
fn readding_a_statement_keeps_the_clause() {
    let mut clause = AndClause::new(stmt("x", Operator::Equal, 1));
    clause.add(stmt("y", Operator::NotEqual, 2));
    let before = clause.to_string();
    clause.add(stmt("x", Operator::Equal, 1));
    assert_eq!(clause.to_string(), before);
    assert_eq!(before, "x == 1 AND y != 2");
    assert_eq!(clause.expressions.len(), 2);
}

#[test]
fn contradictions_collapse() {
    assert_eq!(text("REJECT t WHEN x==1 AND x==2"), "REJECT t WHEN false");
    assert_eq!(text("REJECT t WHEN x==1 AND x!=1"), "REJECT t WHEN false");
    assert_eq!(text("REJECT t WHEN x==1 OR x!=1"), "REJECT t WHEN true");
    // an equality and an inequality with different values do not conflict
    assert_eq!(text("REJECT t WHEN x==1 AND x!=2"), "REJECT t WHEN x == 1 AND x != 2");
}

#[test]
fn and_binds_tighter_than_or() {
    assert_eq!(
        text("REJECT t WHEN false AND x==1 AND true OR true AND x==2"),
        "REJECT t WHEN x == 2"
    );
}

#[test]
fn superset_clause_replaces_subset() {
    assert_eq!(
        text("REJECT t WHEN x==1 AND y==2 OR x==1 AND y==2 AND z==3"),
        "REJECT t WHEN x == 1 AND y == 2 AND z == 3"
    );
    // the clause already held is kept where the new one adds nothing
    assert_eq!(
        text("REJECT t WHEN x==1 AND y==2 AND z==3 OR x==1 AND y==2"),
        "REJECT t WHEN x == 1 AND y == 2 AND z == 3"
    );
}

#[test]
fn and_is_commutative_within_a_clause() {
    assert_eq!(
        text("REJECT t WHEN x==1 AND y==2 OR y==2 AND x==1"),
        "REJECT t WHEN x == 1 AND y == 2"
    );
    let mut a = AndClause::new(stmt("x", Operator::Equal, 1));
    a.add(stmt("y", Operator::Equal, 2));
    let mut b = AndClause::new(stmt("y", Operator::Equal, 2));
    b.add(stmt("x", Operator::Equal, 1));
    assert!(a == b);
    assert!(a.contains(&b) && b.contains(&a));
    let mut or = OrClause::new(a.clone());
    or.add(b);
    assert_eq!(or.subclauses.len(), 1);
    assert!(or == OrClause::new(a));
}

#[test]
fn clause_accessors() {
    let t = AndClause::new(Expression::Boolean(true));
    assert_eq!(t.try_evaluate(), Some(true));
    assert_eq!(t.to_string(), "true");
    let mut x = AndClause::new(stmt("x", Operator::Equal, 1));
    assert_eq!(x.try_evaluate(), None);
    assert!(matches!(x.try_reduce(), Some(Expression::Statement(ref f, Operator::Equal, Atom::Number(1))) if f == "x"));
    x.add(stmt("y", Operator::Equal, 2));
    assert!(x.try_reduce().is_none());
    let mut small = AndClause::new(stmt("z", Operator::Equal, 3));
    small.take(&x);
    assert_eq!(small.to_string(), "x == 1 AND y == 2");
    x.add(Expression::Boolean(false));
    assert_eq!(x.try_evaluate(), Some(false));
    assert!(x.expressions.is_empty());
    x.add(stmt("z", Operator::Equal, 3));
    assert_eq!(x.to_string(), "false");
}

#[test]
fn operation_and_operator_codes() {
    assert_eq!(Operation::Reject.as_byte(), 1);
    assert_eq!(Operation::Filter.as_byte(), 2);
    assert_eq!(Operator::Equal.as_byte(), 1);
    assert_eq!(Operator::NotEqual.as_byte(), 2);
    assert_eq!(Operation::Filter.to_string(), "FILTER");
    assert_eq!(Atom::Number(42).same(&Atom::Number(42)), true);
    assert_eq!(stmt("x", Operator::NotEqual, 12345).to_string(), "x != 12345");
}

#[test]
fn payload_characters_come_from_the_given_list() {
    let rule = "REJECT t WHEN x == \"caf\u{e9}\"";
    assert!(compile_with(rule, &vec![]).is_err());
    assert!(compile_with(rule, &vec!['c', 'a', 'f']).is_err());
    assert_eq!(
        compile_with(rule, &vec!['c', 'a', 'f', '\u{e9}']).map(|r| r.to_string()),
        Ok(String::from("REJECT t WHEN x == \"caf\u{e9}\""))
    );
    assert!(compile_with("REJECT t WHEN x == \"/_\"", &vec![]).is_ok());
}
