use melior_macro::transform::{conversion_pass_name, conversion_pass_names, prefixed_pass_names, strip_prefix};
use melior_macro::DialectError;

fn owned(v: &[&str]) -> Vec<String> {
    v.iter().map(|s| s.to_string()).collect()
}

fn not_found(expected: &str, actual: &str) -> DialectError {
    DialectError::PrefixNotFound { expected: expected.to_string(), actual: actual.to_string() }
}

#[test]
fn strip_prefix_removes_prefix() {
    assert_eq!(strip_prefix("mathAdd", "math"), Ok("Add".to_string()));
    assert_eq!(strip_prefix("math", "math"), Ok(String::new()));
    assert_eq!(strip_prefix("anything", ""), Ok("anything".to_string()));
}

#[test]
fn strip_prefix_reports_absence() {
    assert_eq!(strip_prefix("logicAnd", "math"), Err(not_found("math", "logicAnd")));
    assert_eq!(strip_prefix("ma", "math"), Err(not_found("math", "ma")));
}

#[test]
fn conversion_names() {
    assert_eq!(conversion_pass_name("ConversionConvertFooBarConversionPass"), Ok("FooBar".to_string()));
    assert_eq!(conversion_pass_name("ConversionFooPass"), Ok("Foo".to_string()));
    assert_eq!(conversion_pass_name("ConversionArithToLLVM"), Ok("ArithToLLVM".to_string()));
    assert_eq!(conversion_pass_name("FooPass"), Err(not_found("Conversion", "FooPass")));
}

#[test]
fn conversion_name_strips_pass_after_conversion_pass() {
    assert_eq!(conversion_pass_name("ConversionFooPassConversionPass"), Ok("Foo".to_string()));
}

#[test]
fn conversion_name_set_stops_at_first_failure() {
    let ids = owned(&["ConversionConvertFooBarConversionPass", "ConversionFooPass"]);
    assert_eq!(conversion_pass_names(&ids), Ok(owned(&["FooBar", "Foo"])));
    let ids = owned(&["ConversionFooPass", "BarPass", "BazPass"]);
    assert_eq!(conversion_pass_names(&ids), Err(not_found("Conversion", "BarPass")));
    assert_eq!(conversion_pass_names(&Vec::new()), Ok(Vec::new()));
}

#[test]
fn caller_prefix_names() {
    let ids = owned(&["mathAdd", "mathSub"]);
    assert_eq!(prefixed_pass_names("math", &ids), Ok(owned(&["Add", "Sub"])));
    let ids = owned(&["mathAdd", "logicAnd", "mathSub"]);
    assert_eq!(prefixed_pass_names("math", &ids), Err(not_found("math", "logicAnd")));
}

#[test]
fn duplicate_identifiers_are_kept() {
    let ids = owned(&["mathAdd", "mathAdd"]);
    assert_eq!(prefixed_pass_names("math", &ids), Ok(owned(&["Add", "Add"])));
}
