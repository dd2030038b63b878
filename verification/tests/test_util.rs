//! The small helpers: entry-map merging, numeric parsing, name validation.

use cruct::utils::{merge_maps, parse_numeric, validate_field_name};
use cruct::value::section_get;
use cruct::ConfigValue;

fn val(s: &str) -> ConfigValue {
    ConfigValue::Value(s.to_string())
}

#[test]
fn merge_overwrites_primitives_but_merges_sections() {
    let a = vec![("key".to_string(), val("one"))];
    let b = vec![("key".to_string(), val("two"))];
    let merged = merge_maps(a, b);
    assert_eq!(section_get(&merged, "key"), Some(&val("two")));
}

#[test]
fn merge_nested_sections_combines() {
    let a = vec![(
        "sec".to_string(),
        ConfigValue::Section(vec![("x".to_string(), val("1"))]),
    )];
    let b = vec![(
        "sec".to_string(),
        ConfigValue::Section(vec![("y".to_string(), val("2"))]),
    )];
    let merged = merge_maps(a, b);
    if let Some(ConfigValue::Section(map)) = section_get(&merged, "sec") {
        assert!(section_get(map, "x").is_some());
        assert!(section_get(map, "y").is_some());
    } else {
        panic!("Expected section");
    }
}

#[test]
fn parse_numeric_handles_valid_and_invalid() {
    assert_eq!(parse_numeric("42"), Ok(42));
    assert!(parse_numeric("foo").is_err());
}

#[test]
fn validate_field_name_rejects_invalid_chars() {
    assert!(validate_field_name("valid_name").is_ok());
    assert!(validate_field_name("invalid-name").is_err());
}

#[test]
fn validate_field_name_rejects_empty_and_leading_digit() {
    assert!(validate_field_name("").is_err());
    assert!(validate_field_name("1name").is_err());
    assert!(validate_field_name("name1").is_ok());
}
