//! The merge engine: key-wise merging with the incoming side winning.

use cruct::source::{merge_configs, merge_sections};
use cruct::value::section_get;
use cruct::ConfigValue;

fn val(s: &str) -> ConfigValue {
    ConfigValue::Value(s.to_string())
}

fn entry(k: &str, v: ConfigValue) -> (String, ConfigValue) {
    (k.to_string(), v)
}

#[test]
fn overrides_and_merges_nested_sections() {
    let base = vec![
        entry("a", val("one")),
        entry("nested", ConfigValue::Section(vec![entry("x", val("10"))])),
    ];
    let high = vec![
        entry("a", val("two")),
        entry("nested", ConfigValue::Section(vec![entry("y", val("20"))])),
    ];

    let merged = merge_sections(base, high);
    assert_eq!(section_get(&merged, "a"), Some(&val("two")));
    let nested = match section_get(&merged, "nested") {
        Some(ConfigValue::Section(s)) => s,
        _ => panic!("expected section"),
    };
    assert_eq!(section_get(nested, "x"), Some(&val("10")));
    assert_eq!(section_get(nested, "y"), Some(&val("20")));
}

#[test]
fn merge_configs_sections() {
    let base = ConfigValue::Section(vec![
        entry("key1", ConfigValue::Section(vec![entry("subkey1", val("high1"))])),
        entry("key2", val("base2")),
    ]);
    let high = ConfigValue::Section(vec![
        entry(
            "key1",
            ConfigValue::Section(vec![
                entry("subkey1", val("high1")),
                entry("subkey2", val("high2")),
            ]),
        ),
        entry("key3", val("high3")),
    ]);

    let result = merge_configs(base, high).unwrap();

    if let ConfigValue::Section(merged_section) = result {
        assert_eq!(merged_section.len(), 3);

        if let Some(ConfigValue::Section(sub_section)) = section_get(&merged_section, "key1") {
            assert_eq!(sub_section.len(), 2);
            assert_eq!(section_get(sub_section, "subkey1"), Some(&val("high1")));
            assert_eq!(section_get(sub_section, "subkey2"), Some(&val("high2")));
        } else {
            panic!("Expected key1 to be a section");
        }

        assert_eq!(section_get(&merged_section, "key2"), Some(&val("base2")));
        assert_eq!(section_get(&merged_section, "key3"), Some(&val("high3")));
    } else {
        panic!("Expected result to be a section");
    }
}

#[test]
fn merge_configs_non_sections() {
    let base = val("base_value");
    let high = val("high_value");

    let result = merge_configs(base, high).unwrap();

    assert_eq!(result, val("high_value"));
}

#[test]
fn merge_sections_overrides_existing_and_inserts_new() {
    let base = vec![
        entry("a", val("1")),
        entry("nested", ConfigValue::Section(vec![entry("x", val("10"))])),
    ];
    let high = vec![
        entry("a", val("2")),
        entry(
            "nested",
            ConfigValue::Section(vec![entry("x", val("20")), entry("y", val("30"))]),
        ),
        entry("b", val("3")),
    ];

    let merged = merge_sections(base, high);
    assert_eq!(section_get(&merged, "a"), Some(&val("2")));
    if let Some(ConfigValue::Section(nmap)) = section_get(&merged, "nested") {
        assert_eq!(section_get(nmap, "x"), Some(&val("20")));
        assert_eq!(section_get(nmap, "y"), Some(&val("30")));
    } else {
        panic!("nested section missing");
    }
    assert_eq!(section_get(&merged, "b"), Some(&val("3")));
}

#[test]
fn merge_is_idempotent_on_a_tree() {
    let tree = ConfigValue::Section(vec![
        entry("a", val("1")),
        entry("list", ConfigValue::Array(vec![val("1"), val("2")])),
        entry("nested", ConfigValue::Section(vec![entry("x", val("10"))])),
    ]);
    let same = ConfigValue::Section(vec![
        entry("a", val("1")),
        entry("list", ConfigValue::Array(vec![val("1"), val("2")])),
        entry("nested", ConfigValue::Section(vec![entry("x", val("10"))])),
    ]);
    let twin = ConfigValue::Section(vec![
        entry("a", val("1")),
        entry("list", ConfigValue::Array(vec![val("1"), val("2")])),
        entry("nested", ConfigValue::Section(vec![entry("x", val("10"))])),
    ]);

    assert_eq!(merge_configs(tree, same).unwrap(), twin);
}

#[test]
fn merge_replaces_sequences_wholesale() {
    let base = ConfigValue::Section(vec![entry(
        "a",
        ConfigValue::Array(vec![val("1"), val("2")]),
    )]);
    let high = ConfigValue::Section(vec![entry("a", ConfigValue::Array(vec![val("3")]))]);

    let merged = merge_configs(base, high).unwrap();
    if let ConfigValue::Section(es) = merged {
        assert_eq!(
            section_get(&es, "a"),
            Some(&ConfigValue::Array(vec![val("3")]))
        );
    } else {
        panic!("Expected section");
    }
}

#[test]
fn merge_scalar_precedence() {
    let base = ConfigValue::Section(vec![entry("k", val("old"))]);
    let high = ConfigValue::Section(vec![entry("k", val("new"))]);
    let merged = merge_configs(base, high).unwrap();
    if let ConfigValue::Section(es) = merged {
        assert_eq!(section_get(&es, "k"), Some(&val("new")));
    } else {
        panic!("Expected section");
    }
}
