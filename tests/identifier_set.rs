use melior_macro::transform::{conversion_pass_names, prefixed_pass_names};
use melior_macro::{DialectError, IdentifierSet, Span};

fn strings(v: &[String]) -> Vec<&str> {
    v.iter().map(|s| s.as_str()).collect()
}

#[test]
fn identifiers_with_namespace() {
    let set = IdentifierSet::parse("\"math\", mathAdd, mathSub,").unwrap();
    assert_eq!(set.namespace(), Some("math"));
    assert_eq!(strings(set.identifiers()), vec!["mathAdd", "mathSub"]);
    let names = prefixed_pass_names(set.namespace().unwrap(), set.identifiers()).unwrap();
    assert_eq!(names, vec!["Add".to_string(), "Sub".to_string()]);
}

#[test]
fn identifiers_without_namespace() {
    let set = IdentifierSet::parse(" ConversionConvertFooBarConversionPass , ConversionFooPass").unwrap();
    assert_eq!(set.namespace(), None);
    let names = conversion_pass_names(set.identifiers()).unwrap();
    assert_eq!(names, vec!["FooBar".to_string(), "Foo".to_string()]);
}

#[test]
fn empty_identifier_list() {
    let set = IdentifierSet::parse("").unwrap();
    assert_eq!(set.namespace(), None);
    assert!(set.identifiers().is_empty());
    let set = IdentifierSet::parse("\"arith\"").unwrap();
    assert_eq!(set.namespace(), Some("arith"));
    assert!(set.identifiers().is_empty());
}

#[test]
fn duplicates_are_kept() {
    let set = IdentifierSet::parse("a, b, a").unwrap();
    assert_eq!(strings(set.identifiers()), vec!["a", "b", "a"]);
}

#[test]
fn non_identifier_element_is_malformed() {
    let err = IdentifierSet::parse("\"math\", mathAdd, 42").err().unwrap();
    assert_eq!(err, DialectError::MalformedList { location: Span { start: 17, end: 19 } });
    let err = IdentifierSet::parse("a, \"b\"").err().unwrap();
    assert_eq!(err, DialectError::MalformedList { location: Span { start: 3, end: 6 } });
    let err = IdentifierSet::parse("a b").err().unwrap();
    assert_eq!(err, DialectError::MalformedList { location: Span { start: 2, end: 3 } });
}

#[test]
fn prefix_set_reports_first_bad_identifier() {
    let set = IdentifierSet::parse("\"math\", mathAdd, logicAnd").unwrap();
    let err = prefixed_pass_names(set.namespace().unwrap(), set.identifiers()).err().unwrap();
    assert_eq!(
        err,
        DialectError::PrefixNotFound { expected: "math".to_string(), actual: "logicAnd".to_string() }
    );
}

#[test]
fn non_ascii_identifiers() {
    let set = IdentifierSet::parse("\"ns\", αβ, _γ1").unwrap();
    assert_eq!(set.namespace(), Some("ns"));
    assert_eq!(strings(set.identifiers()), vec!["αβ", "_γ1"]);
}
