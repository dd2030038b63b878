//! Declaration parameter validation: key and value-type checks, required
//! parameters, format tags and priority ordering of file entries.

use cruct::params::{
    FieldParams, LoadConfig, MacroParameters, MacroParams, ParamValue, ParameterError,
};
use cruct::parser::FileFormat;

fn pair(k: &str, v: ParamValue) -> (String, ParamValue) {
    (k.to_string(), v)
}

fn s(v: &str) -> ParamValue {
    ParamValue::Str(v.to_string())
}

#[test]
fn parse_single_load_config() {
    let mp = MacroParams::parse(vec![vec![
        pair("path", s("a.toml")),
        pair("format", s("Toml")),
        pair("priority", ParamValue::Int(5)),
    ]])
    .unwrap();
    assert_eq!(mp.configs.len(), 1);
    assert_eq!(mp.configs[0].path, "a.toml");
    assert_eq!(mp.configs[0].format, Some(FileFormat::Toml));
    assert_eq!(mp.configs[0].priority, Some(5));
}

#[test]
fn load_config_without_required_parameter() {
    let err = MacroParams::parse(vec![vec![]]).unwrap_err();
    assert_eq!(err.message(), "Missing required parameter 'path'");
}

#[test]
fn load_config_with_unknown_key() {
    let err = MacroParams::parse(vec![vec![pair("unknown_key", s("value"))]]).unwrap_err();
    assert_eq!(err.message(), "unknown key 'unknown_key' in load_config");
}

#[test]
fn multiple_load_configs() {
    let mp = MacroParams::parse(vec![
        vec![pair("path", s("a.toml")), pair("priority", ParamValue::Int(1))],
        vec![pair("path", s("b.json")), pair("priority", ParamValue::Int(7))],
    ])
    .unwrap();
    // Sorted by priority descending: the numerically smaller priority comes
    // last, so it is merged last and takes precedence.
    assert_eq!(mp.configs.len(), 2);
    assert_eq!(mp.configs[0].path, "b.json");
    assert_eq!(mp.configs[0].priority, Some(7));
    assert_eq!(mp.configs[1].path, "a.toml");
    assert_eq!(mp.configs[1].priority, Some(1));
}

#[test]
fn load_configs_without_priority_sort_last() {
    let mp = MacroParams::parse(vec![
        vec![pair("path", s("no_prio.toml"))],
        vec![pair("path", s("low.toml")), pair("priority", ParamValue::Int(0))],
        vec![pair("path", s("high.toml")), pair("priority", ParamValue::Int(9))],
    ])
    .unwrap();
    assert_eq!(mp.configs[0].path, "high.toml");
    assert_eq!(mp.configs[1].path, "low.toml");
    assert_eq!(mp.configs[2].path, "no_prio.toml");
}

#[test]
fn parse_invalid_file_format() {
    let err = MacroParams::parse(vec![vec![pair("path", s("a.xml")), pair("format", s("xml"))]])
        .unwrap_err();
    assert_eq!(
        err.message(),
        "invalid file format: 'xml' is not a valid file format"
    );
}

#[test]
fn path_value_mismatch() {
    let err = LoadConfig::parse(vec![pair("path", ParamValue::Int(123))]).unwrap_err();
    assert_eq!(
        err.message(),
        "Invalid parameter type for 'path', expected 'String', found '123'"
    );
}

#[test]
fn format_value_mismatch() {
    let err = LoadConfig::parse(vec![pair("format", ParamValue::Int(123))]).unwrap_err();
    assert_eq!(
        err.message(),
        "Invalid parameter type for 'format', expected 'String', found '123'"
    );
}

#[test]
fn priority_value_mismatch() {
    let err = LoadConfig::parse(vec![pair("priority", s("high"))]).unwrap_err();
    assert_eq!(
        err.message(),
        "Invalid parameter type for 'priority', expected 'Integer', found '\"high\"'"
    );
}

#[test]
fn name_invalid_value() {
    let err = FieldParams::parse(vec![pair("name", ParamValue::Int(1))]).unwrap_err();
    assert_eq!(
        err.message(),
        "Invalid parameter type for 'name', expected '&str', found '1'"
    );
}

#[test]
fn insensitive_invalid_value() {
    let err = FieldParams::parse(vec![pair("insensitive", s("true"))]).unwrap_err();
    assert_eq!(
        err.message(),
        "Invalid parameter type for 'insensitive', expected 'bool', found '\"true\"'"
    );
}

#[test]
fn env_override_invalid_value() {
    let err = FieldParams::parse(vec![pair("env_override", ParamValue::Int(1))]).unwrap_err();
    assert_eq!(
        err.message(),
        "Invalid parameter type for 'env_override', expected '&str', found '1'"
    );
}

#[test]
fn arg_override_invalid_value() {
    let err = FieldParams::parse(vec![pair("arg_override", ParamValue::Int(1))]).unwrap_err();
    assert_eq!(
        err.message(),
        "Invalid parameter type for 'arg_override', expected '&str', found '1'"
    );
}

#[test]
fn unknown_key() {
    let err = FieldParams::parse(vec![pair("unknown", ParamValue::Int(1))]).unwrap_err();
    assert!(matches!(err, ParameterError::UnknownKey { .. }));
}

#[test]
fn field_params_collects_everything() {
    let fp = FieldParams::parse(vec![
        pair("name", s("http_port")),
        pair("insensitive", ParamValue::Bool(true)),
        pair("env_override", s("PORT")),
        pair("arg_override", s("port")),
        pair("default", ParamValue::Int(8080)),
    ])
    .unwrap();
    assert_eq!(fp.name, Some("http_port".to_string()));
    assert!(fp.insensitive);
    assert_eq!(fp.env_override, Some("PORT".to_string()));
    assert_eq!(fp.arg_override, Some("port".to_string()));
    assert_eq!(fp.default, Some(ParamValue::Int(8080)));
}

#[test]
fn macro_parameters_parse_and_reject() {
    let mp = MacroParameters::parse(vec![pair("path", s("a.toml")), pair("format", s("Yaml"))])
        .unwrap();
    assert_eq!(mp.path, "a.toml");
    assert_eq!(mp.format, Some(FileFormat::Yml));

    let missing = MacroParameters::parse(vec![]).unwrap_err();
    assert_eq!(missing.message(), "Missing required parameter 'path'");

    let unknown = MacroParameters::parse(vec![pair("nope", s("x"))]).unwrap_err();
    assert!(matches!(unknown, ParameterError::UnknownKey { .. }));
}
