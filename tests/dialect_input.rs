use melior_macro::{DialectError, DialectInput, InputField, Span};

fn strings(v: &[String]) -> Vec<&str> {
    v.iter().map(|s| s.as_str()).collect()
}

#[test]
fn parses_full_declaration() {
    let text = r#"name: "func", files: ["IR/FuncOps.td"], include_directories: ["mlir/Dialect/Func"], include_directory_env_vars: ["ENV_VAR_X"]"#;
    let input = DialectInput::parse(text).unwrap();
    assert_eq!(input.name(), "func");
    assert_eq!(strings(input.files()), vec!["IR/FuncOps.td"]);
    assert_eq!(strings(input.directories()), vec!["mlir/Dialect/Func"]);
    let vars = input.directory_env_vars();
    assert_eq!(vars.len(), 1);
    assert_eq!(vars[0].0, "ENV_VAR_X");
    let start = text.find("\"ENV_VAR_X\"").unwrap();
    assert_eq!(vars[0].1, Span { start, end: start + 11 });
}

#[test]
fn parses_several_files_with_trailing_commas() {
    let text = "name: \"func\",\n files: [\"IR/FuncOps.td\", \"TransformOps/FuncTransformOps.td\", \"Transforms/Passes.td\",],\n";
    let input = DialectInput::parse(text).unwrap();
    assert_eq!(
        strings(input.files()),
        vec!["IR/FuncOps.td", "TransformOps/FuncTransformOps.td", "Transforms/Passes.td"]
    );
}

#[test]
fn name_only_leaves_lists_empty() {
    let input = DialectInput::parse("name: \"arith\"").unwrap();
    assert_eq!(input.name(), "arith");
    assert!(input.files().is_empty());
    assert!(input.directories().is_empty());
    assert!(input.directory_env_vars().is_empty());
}

#[test]
fn fields_in_any_order() {
    let input = DialectInput::parse("include_directories: [], name: \"scf\", files: []").unwrap();
    assert_eq!(input.name(), "scf");
    assert!(input.files().is_empty());
    assert!(input.directories().is_empty());
}

#[test]
fn missing_name_is_an_error() {
    let text = "files: [\"a.td\"]";
    let err = DialectInput::parse(text).err().unwrap();
    assert_eq!(
        err,
        DialectError::MissingRequiredField {
            field: "name".to_string(),
            location: Span { start: 0, end: text.len() },
        }
    );
}

#[test]
fn empty_input_lacks_name() {
    let err = DialectInput::parse("  ").err().unwrap();
    assert_eq!(
        err,
        DialectError::MissingRequiredField { field: "name".to_string(), location: Span { start: 0, end: 2 } }
    );
}

#[test]
fn unknown_field_blames_the_key() {
    let err = DialectInput::parse("name: \"x\", bogus: [\"a\"]").err().unwrap();
    assert_eq!(
        err,
        DialectError::UnknownField { key: "bogus".to_string(), location: Span { start: 11, end: 16 } }
    );
}

#[test]
fn unknown_field_first() {
    let err = DialectInput::parse("  nme: \"x\"").err().unwrap();
    assert_eq!(
        err,
        DialectError::UnknownField { key: "nme".to_string(), location: Span { start: 2, end: 5 } }
    );
}

#[test]
fn last_key_wins() {
    let input = DialectInput::parse("name: \"a\", files: [\"x\"], name: \"b\", files: [\"y\", \"z\"]").unwrap();
    assert_eq!(input.name(), "b");
    assert_eq!(strings(input.files()), vec!["y", "z"]);
}

#[test]
fn parsing_twice_gives_equal_results() {
    let text = "name: \"func\", include_directory_env_vars: [\"A\", \"B\"]";
    let a = DialectInput::parse(text).unwrap();
    let b = DialectInput::parse(text).unwrap();
    assert_eq!(a.name(), b.name());
    assert_eq!(a.files(), b.files());
    assert_eq!(a.directories(), b.directories());
    assert_eq!(a.directory_env_vars(), b.directory_env_vars());
    let e1 = DialectInput::parse("name: 1").err();
    let e2 = DialectInput::parse("name: 1").err();
    assert_eq!(e1, e2);
}

#[test]
fn name_must_be_a_string() {
    let err = DialectInput::parse("name: [\"a\"]").err().unwrap();
    assert_eq!(err, DialectError::MalformedScalar { location: Span { start: 6, end: 7 } });
}

#[test]
fn list_must_be_bracketed() {
    let err = DialectInput::parse("name: \"a\", files: \"x\"").err().unwrap();
    assert_eq!(err, DialectError::MalformedList { location: Span { start: 18, end: 21 } });
}

#[test]
fn list_items_must_be_strings() {
    let err = DialectInput::parse("name: \"a\", files: [\"x\", 3]").err().unwrap();
    assert_eq!(err, DialectError::MalformedList { location: Span { start: 24, end: 25 } });
}

#[test]
fn unterminated_list() {
    let err = DialectInput::parse("name: \"a\", files: [\"x\"").err().unwrap();
    assert_eq!(err, DialectError::MalformedList { location: Span { start: 22, end: 22 } });
}

#[test]
fn missing_colon() {
    let err = DialectInput::parse("name \"a\"").err().unwrap();
    assert_eq!(err, DialectError::UnexpectedToken { location: Span { start: 5, end: 8 } });
}

#[test]
fn missing_comma_between_entries() {
    let err = DialectInput::parse("name: \"a\" files: []").err().unwrap();
    assert_eq!(err, DialectError::UnexpectedToken { location: Span { start: 10, end: 15 } });
}

#[test]
fn spans_count_characters() {
    let input = DialectInput::parse("name: \"é\", include_directory_env_vars: [\"Ü\"]").unwrap();
    assert_eq!(input.name(), "é");
    assert_eq!(input.directory_env_vars()[0].1, Span { start: 40, end: 43 });
}

#[test]
fn parses_one_field() {
    let (field, end) = InputField::parse("x, files: [\"a\", \"b\"] ", 3).unwrap();
    assert_eq!(end, 20);
    match field {
        InputField::Files(v) => assert_eq!(v, vec!["a".to_string(), "b".to_string()]),
        _ => panic!("expected a list of files"),
    }
    let (field, _) = InputField::parse("include_directory_env_vars: [ \"V\" ]", 0).unwrap();
    match field {
        InputField::DirectoryEnvVars(v) => assert_eq!(v, vec![("V".to_string(), Span { start: 30, end: 33 })]),
        _ => panic!("expected a list of variables"),
    }
}

#[test]
fn diagnostics_carry_message_and_location() {
    let err = DialectInput::parse("name: \"x\", bogus: [\"a\"]").err().unwrap();
    assert_eq!(err.message(), "invalid field bogus");
    assert_eq!(err.location(), Some(Span { start: 11, end: 16 }));
    let err = DialectInput::parse("files: []").err().unwrap();
    assert_eq!(err.message(), "missing required field name");
    assert_eq!(err.location(), Some(Span { start: 0, end: 9 }));
    let err = DialectError::PrefixNotFound { expected: "Conversion".to_string(), actual: "FooPass".to_string() };
    assert_eq!(err.message(), "prefix Conversion not found in FooPass");
    assert_eq!(err.location(), None);
    let err = DialectInput::parse("name: 1").err().unwrap();
    assert_eq!(err.message(), "expected a string literal");
}

#[test]
fn empty_name_is_refused() {
    let err = DialectInput::parse("name: \"\"").err().unwrap();
    assert_eq!(err, DialectError::MalformedScalar { location: Span { start: 6, end: 8 } });
}

#[test]
fn escapes_are_resolved() {
    let input = DialectInput::parse(r#"name: "a\nb", files: ["x\"y", "tab\there", "\u{e9}"]"#).unwrap();
    assert_eq!(input.name(), "a\nb");
    assert_eq!(strings(input.files()), vec!["x\"y", "tab\there", "é"]);
}

#[test]
fn raw_strings_are_accepted() {
    let input = DialectInput::parse(r###"name: r#"raw "quoted""#, include_directories: [r"C:\dir"]"###).unwrap();
    assert_eq!(input.name(), "raw \"quoted\"");
    assert_eq!(strings(input.directories()), vec!["C:\\dir"]);
}

#[test]
fn invalid_escape_is_refused() {
    let err = DialectInput::parse(r#"name: "\q""#).err().unwrap();
    assert_eq!(err, DialectError::MalformedScalar { location: Span { start: 6, end: 10 } });
    let err = DialectInput::parse(r#"name: "a", files: ["\q"]"#).err().unwrap();
    assert_eq!(err, DialectError::MalformedList { location: Span { start: 19, end: 23 } });
}

#[test]
fn non_ascii_key_is_an_unknown_field() {
    let err = DialectInput::parse("é: [\"x\"]").err().unwrap();
    assert_eq!(err, DialectError::UnknownField { key: "é".to_string(), location: Span { start: 0, end: 1 } });
    let err = DialectInput::parse("name: \"x\", naïve: []").err().unwrap();
    assert_eq!(err, DialectError::UnknownField { key: "naïve".to_string(), location: Span { start: 11, end: 16 } });
}

#[test]
fn more_escapes() {
    let input = DialectInput::parse(
        "name: \"\\x41\\u{1_F600}\\0\\'\\\\\", files: [\"a\\\n    b\", \"\\u{10FFFF}\"]",
    )
    .unwrap();
    assert_eq!(input.name(), "A\u{1F600}\0'\\");
    assert_eq!(strings(input.files()), vec!["ab", "\u{10FFFF}"]);
}

#[test]
fn invalid_escapes_are_refused() {
    for text in [
        "name: \"\\x80\"",
        "name: \"\\u{D800}\"",
        "name: \"\\u{1234567}\"",
        "name: \"\\u{_1}\"",
        "name: \"\\u{110000}\"",
        "name: \"\\u1234\"",
        "name: \"a\rb\"",
        "name: r\"a\rb\"",
    ] {
        let err = DialectInput::parse(text).err().unwrap();
        assert!(matches!(err, DialectError::MalformedScalar { .. }), "{text:?} gave {err:?}");
    }
}
