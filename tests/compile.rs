use rule_compiler::compile;

#[test]
fn lib_test_compile() {
    assert!(compile(r#"FOO foo_bar_baz WHEN x==a"#).is_err());
    assert!(compile(r#"REJECT foo_bar_baz WHEN x=="1\\"""#).is_err());
    assert!(compile(r#"REJECT foo_bar_baz WHEN x==a"#).is_err());
    assert!(compile(r#"REJECT foo_bar_baz WHEN "x"==a"#).is_err());
    assert!(compile(r#"REJECT foo_bar_baz WHEN "x""#).is_err());
    assert!(compile(r#"REJECT foo_bar_baz WHEN x"#).is_err());
    assert!(compile(r#"REJECT foo_bar_baz WHEN"#).is_err());
    assert_eq!(
        compile(r#"reject foo_bar_baz when true"#).map(|c| c.to_string()),
        Ok(String::from(r#"REJECT foo_bar_baz WHEN true"#))
    );
    assert_eq!(
        compile(r#"REJECT foo_bar_baz WHEN x=="1\"""#).map(|c| c.to_string()),
        Ok(String::from(r#"REJECT foo_bar_baz WHEN x == "1\"""#))
    );
    assert_eq!(
        compile(r#"REJECT foo_bar_baz WHEN x==1"#).map(|c| c.to_string()),
        Ok(String::from("REJECT foo_bar_baz WHEN x == 1"))
    );
    // optimizing
    assert_eq!(
        compile(r#"REJECT foo_bar_baz WHEN x==1 AND false OR true"#).map(|c| c.to_string()),
        Ok(String::from("REJECT foo_bar_baz WHEN true"))
    );
    assert_eq!(
        compile(r#"REJECT foo_bar_baz WHEN false AND false AND false OR true"#)
            .map(|c| c.to_string()),
        Ok(String::from("REJECT foo_bar_baz WHEN true"))
    );
    assert_eq!(
        compile(r#"REJECT foo_bar_baz WHEN true AND false OR x==1"#).map(|c| c.to_string()),
        Ok(String::from("REJECT foo_bar_baz WHEN x == 1"))
    );
    // precedence
    assert_eq!(
        compile(r#"REJECT foo_bar_baz WHEN false AND x==1 AND true OR true AND x==2"#)
            .map(|c| c.to_string()),
        Ok(String::from("REJECT foo_bar_baz WHEN x == 2"))
    );
    assert_eq!(
        compile(r#"REJECT foo_bar_baz WHEN true AND x==1 AND true or true AND x==2 AND true"#)
            .map(|c| c.to_string()),
        Ok(String::from("REJECT foo_bar_baz WHEN x == 1 OR x == 2"))
    );
    // equivalent condition
    assert_eq!(
        compile(r#"REJECT foo_bar_baz WHEN x==1 AND x==1"#).map(|c| c.to_string()),
        Ok(String::from("REJECT foo_bar_baz WHEN x == 1"))
    );
    // equivalent field
    assert_eq!(
        compile(r#"REJECT foo_bar_baz WHEN x==1 AND x==2"#).map(|c| c.to_string()),
        Ok(String::from("REJECT foo_bar_baz WHEN false"))
    );
    // exclusive field
    assert_eq!(
        compile(r#"REJECT foo_bar_baz WHEN x==1 AND x!=1"#).map(|c| c.to_string()),
        Ok(String::from("REJECT foo_bar_baz WHEN false"))
    );
    // inclusive field
    assert_eq!(
        compile(r#"REJECT foo_bar_baz WHEN x==1 OR x!=1"#).map(|c| c.to_string()),
        Ok(String::from("REJECT foo_bar_baz WHEN true"))
    );
    // complex
    assert_eq!(
        compile(r#"REJECT foo_bar_baz WHEN true AND x==1 AND true or true AND x!=1 AND true"#)
            .map(|c| c.to_string()),
        Ok(String::from("REJECT foo_bar_baz WHEN true"))
    );
    // re-ordered
    assert_eq!(
        compile(r#"REJECT foo_bar_baz WHEN x==1 AND y==2 OR y==2 AND x==1"#)
            .map(|c| c.to_string()),
        Ok(String::from("REJECT foo_bar_baz WHEN x == 1 AND y == 2"))
    );
    // subset
    assert_eq!(
        compile(r#"REJECT foo_bar_baz WHEN x==1 AND y==2 OR  x==1 and y==2 AND z==3"#)
            .map(|c| c.to_string()),
        Ok(String::from(
            "REJECT foo_bar_baz WHEN x == 1 AND y == 2 AND z == 3"
        ))
    );
    assert_eq!(
        compile(r#"REJECT foo_bar_baz WHEN x==1 and y==2 AND z==3 OR x==1 AND y==2 OR x==1 and y==2 and z==3 and v==4"#)
            .map(|c| c.to_string()),
        Ok(String::from(
            "REJECT foo_bar_baz WHEN x == 1 AND y == 2 AND z == 3 AND v == 4"
        ))
    );
    assert_eq!(
        compile(r#"REJECT foo_bar_baz WHEN x==1 and y==2 AND z==3 OR x==1 AND y==2 OR x==1 and y==2 and z==3 and x==2"#)
            .map(|c| c.to_string()),
        Ok(String::from(
            "REJECT foo_bar_baz WHEN x == 1 AND y == 2 AND z == 3"
        ))
    );
}

#[test]
fn rules_test_compile() {
    assert!(compile(r#"FOO foo_bar_baz WHEN x==a"#).is_err());
    assert!(compile(r#"REJECT foo_bar_baz WHEN x=="1\\"""#).is_err());
    assert!(compile(r#"REJECT foo_bar_baz WHEN x==a"#).is_err());
    assert!(compile(r#"REJECT foo_bar_baz WHEN "x"==a"#).is_err());
    assert!(compile(r#"REJECT foo_bar_baz WHEN "x""#).is_err());
    assert!(compile(r#"REJECT foo_bar_baz WHEN x"#).is_err());
    assert!(compile(r#"REJECT foo_bar_baz WHEN"#).is_err());
    assert_eq!(
        compile(r#"reject foo_bar_baz when true"#).map(|c| c.to_string()),
        Ok(String::from(r#"REJECT foo_bar_baz WHEN true"#))
    );
    assert_eq!(
        compile(r#"REJECT foo_bar_baz WHEN x=="1\"""#).map(|c| c.to_string()),
        Ok(String::from(r#"REJECT foo_bar_baz WHEN x == "1\"""#))
    );
    assert_eq!(
        compile(r#"REJECT foo_bar_baz WHEN x==1"#).map(|c| c.to_string()),
        Ok(String::from("REJECT foo_bar_baz WHEN x == 1"))
    );
    // optimizing
    assert_eq!(
        compile(r#"REJECT foo_bar_baz WHEN x==1 AND false OR true"#).map(|c| c.to_string()),
        Ok(String::from("REJECT foo_bar_baz WHEN true"))
    );
    assert_eq!(
        compile(r#"REJECT foo_bar_baz WHEN false AND false AND false OR true"#)
            .map(|c| c.to_string()),
        Ok(String::from("REJECT foo_bar_baz WHEN true"))
    );
    assert_eq!(
        compile(r#"REJECT foo_bar_baz WHEN true AND false OR x==1"#).map(|c| c.to_string()),
        Ok(String::from("REJECT foo_bar_baz WHEN x == 1"))
    );
    // precedence
    assert_eq!(
        compile(r#"REJECT foo_bar_baz WHEN false AND x==1 AND true OR true AND x==2"#)
            .map(|c| c.to_string()),
        Ok(String::from("REJECT foo_bar_baz WHEN x == 2"))
    );
    assert_eq!(
        compile(r#"REJECT foo_bar_baz WHEN true AND x==1 AND true or true AND x==2 AND true"#)
            .map(|c| c.to_string()),
        Ok(String::from("REJECT foo_bar_baz WHEN x == 1 OR x == 2"))
    );
    // equivalent condition
    assert_eq!(
        compile(r#"REJECT foo_bar_baz WHEN x==1 AND x==1"#).map(|c| c.to_string()),
        Ok(String::from("REJECT foo_bar_baz WHEN x == 1"))
    );
    // equivalent field
    assert_eq!(
        compile(r#"REJECT foo_bar_baz WHEN x==1 AND x==2"#).map(|c| c.to_string()),
        Ok(String::from("REJECT foo_bar_baz WHEN false"))
    );
    // exclusive field
    assert_eq!(
        compile(r#"REJECT foo_bar_baz WHEN x==1 AND x!=1"#).map(|c| c.to_string()),
        Ok(String::from("REJECT foo_bar_baz WHEN false"))
    );
    // inclusive field
    assert_eq!(
        compile(r#"REJECT foo_bar_baz WHEN x==1 OR x!=1"#).map(|c| c.to_string()),
        Ok(String::from("REJECT foo_bar_baz WHEN true"))
    );
    // complex
    assert_eq!(
        compile(r#"REJECT foo_bar_baz WHEN true AND x==1 AND true or true AND x!=1 AND true"#)
            .map(|c| c.to_string()),
        Ok(String::from("REJECT foo_bar_baz WHEN true"))
    );
    // re-ordered
    assert_eq!(
        compile(r#"REJECT foo_bar_baz WHEN x==1 AND y==2 OR y==2 AND x==1"#)
            .map(|c| c.to_string()),
        Ok(String::from("REJECT foo_bar_baz WHEN x == 1 AND y == 2"))
    );
    // subset
    assert_eq!(
        compile(r#"REJECT foo_bar_baz WHEN x==1 AND y==2 OR  x==1 and y==2 AND z==3"#)
            .map(|c| c.to_string()),
        Ok(String::from(
            "REJECT foo_bar_baz WHEN x == 1 AND y == 2 AND z == 3"
        ))
    );
    assert_eq!(
        compile(r#"REJECT foo_bar_baz WHEN x==1 and y==2 AND z==3 OR x==1 AND y==2 OR x==1 and y==2 and z==3 and v==4"#)
            .map(|c| c.to_string()),
        Ok(String::from(
            "REJECT foo_bar_baz WHEN x == 1 AND y == 2 AND z == 3 AND v == 4"
        ))
    );
    assert_eq!(
        compile(r#"REJECT foo_bar_baz WHEN x==1 and y==2 AND z==3 OR x==1 AND y==2 OR x==1 and y==2 and z==3 and x==2"#)
            .map(|c| c.to_string()),
        Ok(String::from(
            "REJECT foo_bar_baz WHEN x == 1 AND y == 2 AND z == 3"
        ))
    );
}
