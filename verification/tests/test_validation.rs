//! Presence checks: which required keys a section does not bind.

use cruct::validation::check_required_fields;
use cruct::ConfigValue;

#[test]
fn detects_missing_required_field() {
    let map = vec![(
        "present".to_string(),
        ConfigValue::Value("ok".to_string()),
    )];
    let missing = check_required_fields(&map, &vec!["present".into(), "absent".into()]);
    assert_eq!(missing, vec!["absent".to_string()]);
}

#[test]
fn all_required_fields_present_returns_empty() {
    let map = vec![("a".to_string(), ConfigValue::Value("1".to_string()))];
    let missing = check_required_fields(&map, &vec!["a".into()]);
    assert!(missing.is_empty());
}
