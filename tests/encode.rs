use rule_compiler::{
    compile, encode_or_clause, BpfQueryWriter, BpfQueryWriterFactory, EncodeError, FieldKind,
    Operation, SchemaField, CLAUSE_LIMIT,
};

fn number_field(path: &str) -> SchemaField {
    SchemaField { path: String::from(path), kind: FieldKind::Number(u64::MAX) }
}

fn string_field(path: &str, size: usize) -> SchemaField {
    SchemaField { path: String::from(path), kind: FieldKind::String(size) }
}

#[test]
fn test_encoding() {
    let rule = compile(r#"REJECT foo_bar_baz WHEN x==1 and y==2 AND z==3 OR x==1 AND y==2 OR x==1 and y==2 and z==3 and a=="2""#).unwrap();
    assert!(encode_or_clause(
        &vec![number_field("x"), number_field("y"), number_field("z"), string_field("a", 2)],
        CLAUSE_LIMIT,
        rule.clause()
    )
    .is_ok());
    assert!(encode_or_clause(&vec![number_field("x"), number_field("y")], CLAUSE_LIMIT, rule.clause())
        .is_err());
    assert!(encode_or_clause(
        &vec![number_field("x"), string_field("y", 1), number_field("z")],
        CLAUSE_LIMIT,
        rule.clause()
    )
    .is_err());
    assert!(encode_or_clause(
        &vec![number_field("x"), number_field("y"), number_field("z"), string_field("a", 0)],
        CLAUSE_LIMIT,
        rule.clause()
    )
    .is_err());
}

#[test]
fn test_error_missing_fields() {
    let rule = compile(r#"REJECT bprm_check_security WHEN x==1 and y==2 AND z==3 OR x==1 AND y==2 OR x==1 and y==2 and z==3 and a=="2""#).unwrap();
    assert!(rule.encode(&BpfQueryWriterFactory::empty()).is_err());
}

#[test]
fn test_error_type_mismatch() {
    let rule = compile(r#"REJECT bprm_check_security WHEN user.id == "test""#).unwrap();
    assert!(rule.encode(&BpfQueryWriterFactory::empty()).is_err());
}

#[test]
fn test_error_repeated() {
    let rule = compile(r#"REJECT bprm_check_security WHEN user.id == "a" and user.id != "b""#)
        .unwrap();
    assert!(rule.encode(&BpfQueryWriterFactory::empty()).is_err());
}

#[test]
fn test_ok() {
    let rule =
        compile(r#"REJECT bprm_check_security WHEN process.name == "ls" and user.id == 1"#)
            .unwrap();
    assert!(rule.encode(&BpfQueryWriterFactory::empty()).is_ok());
}

#[test]
fn end_to_end_single_record_and_flush() {
    let rule =
        compile(r#"REJECT bprm_check_security WHEN process.name == "ls" and user.id == 1"#)
            .unwrap();
    let mut writer = BpfQueryWriter::new(rule.table().clone(), rule.operation()).unwrap();
    assert!(rule.encode_to(&mut writer).is_ok());
    assert_eq!(writer.flush_count(), 1);
    assert_eq!(writer.flushed().len(), 1);
    let record = &writer.flushed()[0];
    assert_eq!(record.absolute, 0);
    // process.name is the third field, user.id the fifth
    let name = &record.slots[2];
    assert_eq!(name.operator, 1);
    assert_eq!(name.text.len(), 256);
    assert_eq!(&name.text[..2], b"ls");
    assert!(name.text[2..].iter().all(|b| *b == 0));
    let id = &record.slots[4];
    assert_eq!(id.operator, 1);
    assert_eq!(id.number, 1);
    for i in [0usize, 1, 3] {
        assert_eq!(record.slots[i].operator, 0);
    }
    assert_eq!(rule.records().unwrap().len(), 1);
}

#[test]
fn unknown_table_fails() {
    let rule = compile("FILTER no_such_table WHEN user.id == 1").unwrap();
    assert_eq!(rule.records().err(), Some(EncodeError::UnknownTable));
    assert!(rule.encode(&BpfQueryWriterFactory::empty()).is_err());
}

#[test]
fn unknown_field_fails() {
    let rule = compile("REJECT path_unlink WHEN process.pid == 1").unwrap();
    assert_eq!(rule.records().err(), Some(EncodeError::UnknownField));
}

#[test]
fn type_mismatch_fails() {
    let rule = compile(r#"REJECT path_rename WHEN user.id == "root""#).unwrap();
    assert_eq!(rule.records().err(), Some(EncodeError::TypeMismatch));
    let rule = compile("REJECT path_rename WHEN process.name == 7").unwrap();
    assert_eq!(rule.records().err(), Some(EncodeError::TypeMismatch));
}

#[test]
fn number_range_is_checked() {
    let rule = compile("REJECT bprm_check_security WHEN user.id == 4294967295").unwrap();
    assert!(rule.records().is_ok());
    let rule = compile("REJECT bprm_check_security WHEN user.id == 4294967296").unwrap();
    assert_eq!(rule.records().err(), Some(EncodeError::RangeError));
}

#[test]
fn string_length_is_checked() {
    let fits = "a".repeat(255);
    let rule = compile(&format!("REJECT bprm_check_security WHEN process.name == \"{}\"", fits))
        .unwrap();
    let records = rule.records().unwrap();
    assert_eq!(records[0].slots[2].text[254], b'a');
    assert_eq!(records[0].slots[2].text[255], 0);
    let long = "a".repeat(256);
    let rule = compile(&format!("REJECT bprm_check_security WHEN process.name == \"{}\"", long))
        .unwrap();
    assert_eq!(rule.records().err(), Some(EncodeError::TooLong));
}

#[test]
fn duplicate_field_fails() {
    let rule = compile("REJECT bprm_check_security WHEN user.id == 1 and user.id != 2").unwrap();
    assert_eq!(rule.records().err(), Some(EncodeError::DuplicateField));
    assert_eq!(
        rule.encode(&BpfQueryWriterFactory::empty()).err(),
        Some(EncodeError::DuplicateField)
    );
}

#[test]
fn constant_inside_clause_is_invalid() {
    let clause = rule_compiler::AndClause {
        truthy: false,
        value: false,
        expressions: vec![rule_compiler::Expression::Boolean(true)],
    };
    let fields = rule_compiler::schema_for(&String::from("path_rename")).unwrap();
    assert_eq!(
        rule_compiler::encode_and_clause(&fields, &clause).err(),
        Some(EncodeError::InvalidClause)
    );
}

fn disjuncts(n: usize) -> String {
    let parts: Vec<String> = (0..n).map(|i| format!("user.id == {}", i)).collect();
    format!("FILTER path_unlink WHEN {}", parts.join(" OR "))
}

#[test]
fn clause_limit_is_enforced() {
    let rule = compile(&disjuncts(8)).unwrap();
    assert_eq!(rule.records().unwrap().len(), 8);
    let mut writer = BpfQueryWriter::new(rule.table().clone(), rule.operation()).unwrap();
    assert!(rule.encode_to(&mut writer).is_ok());
    assert_eq!(writer.flushed().len(), 8);
    let rule = compile(&disjuncts(9)).unwrap();
    assert_eq!(rule.records().err(), Some(EncodeError::TooManyClauses));
    assert_eq!(
        rule.encode(&BpfQueryWriterFactory::empty()).err(),
        Some(EncodeError::TooManyClauses)
    );
}

#[test]
fn constant_rules_encode_one_absolute_record() {
    let rule = compile("FILTER bprm_check_security WHEN x == 1 OR x != 1").unwrap();
    let records = rule.records().unwrap();
    assert_eq!(records.len(), 1);
    assert_eq!(records[0].absolute, 1);
    assert!(records[0].slots.iter().all(|s| s.operator == 0));
    let mut writer = BpfQueryWriter::new(rule.table().clone(), Operation::Filter).unwrap();
    assert!(rule.encode_to(&mut writer).is_ok());
    assert_eq!(writer.flush_count(), 1);
    assert_eq!(writer.flushed().len(), 1);

    let rule = compile("REJECT bprm_check_security WHEN false").unwrap();
    let records = rule.records().unwrap();
    assert_eq!(records.len(), 1);
    assert_eq!(records[0].absolute, 2);
}

#[test]
fn each_disjunct_gets_its_own_record() {
    let rule =
        compile(r#"REJECT path_rename WHEN process.name == "ls" OR user.id != 0"#).unwrap();
    let records = rule.records().unwrap();
    assert_eq!(records.len(), 2);
    assert_eq!(records[0].slots[2].operator, 1);
    assert_eq!(records[0].slots[4].operator, 0);
    assert_eq!(records[1].slots[4].operator, 2);
    assert_eq!(records[1].slots[4].number, 0);
    let mut writer = BpfQueryWriter::new(rule.table().clone(), rule.operation()).unwrap();
    assert!(rule.encode_to(&mut writer).is_ok());
    assert_eq!(writer.flush_count(), 1);
    assert_eq!(writer.flushed().len(), 2);
}

#[test]
fn encode_through_the_factory() {
    let factory = BpfQueryWriterFactory::empty();
    let fits = compile(&format!("REJECT bprm_check_security WHEN process.name == \"{}\"", "a".repeat(255))).unwrap();
    assert!(fits.encode(&factory).is_ok());
    let long = compile(&format!("REJECT bprm_check_security WHEN process.name == \"{}\"", "a".repeat(256))).unwrap();
    assert_eq!(long.encode(&factory).err(), Some(EncodeError::TooLong));
    let unknown = compile("REJECT foo WHEN true").unwrap();
    assert_eq!(unknown.encode(&factory).err(), Some(EncodeError::UnknownTable));
    let mismatch = compile(r#"REJECT bprm_check_security WHEN user.id == "test""#).unwrap();
    assert_eq!(mismatch.encode(&factory).err(), Some(EncodeError::TypeMismatch));
    let eight = compile(&disjuncts(8)).unwrap();
    assert!(eight.encode(&factory).is_ok());
}
