//! Whole loads: text of each format parsed, merged and resolved into a
//! described structure, including arrays and defaults.

use cruct::parser::{JsonParser, ParserError, TomlParser, YmlParser};
use cruct::resolve::{load_struct, DynValue, FieldDef, FieldTy, StructTy};
use cruct::ConfigValue;

fn field(key: &str, ty: FieldTy) -> FieldDef {
    FieldDef {
        key: key.to_string(),
        insensitive: false,
        arg_override: None,
        env_override: None,
        default: None,
        optional: false,
        ty,
    }
}

fn strings(items: &[&str]) -> DynValue {
    DynValue::List(items.iter().map(|s| DynValue::Str(s.to_string())).collect())
}

fn uints(items: &[u64]) -> DynValue {
    DynValue::List(items.iter().map(|n| DynValue::UInt(*n)).collect())
}

#[test]
fn test_toml_loading() {
    let text = "else = \"toml value\"\nhttp_port = 8080\n";
    let tree = TomlParser.load_str(text).unwrap();
    let ty = StructTy {
        name: "TestToml".to_string(),
        fields: vec![field("else", FieldTy::Str), field("http_port", FieldTy::U16)],
    };
    let config = load_struct(&ty, &tree, &vec![], &vec![]).unwrap();
    assert_eq!(
        config,
        DynValue::Struct(vec![
            ("else".to_string(), DynValue::Str("toml value".to_string())),
            ("http_port".to_string(), DynValue::UInt(8080)),
        ])
    );
}

#[test]
fn test_json_loading() {
    let text = "{ \"else\": \"json value\", \"http_port\": 3000 }";
    let tree = JsonParser.load_str(text).unwrap();
    let ty = StructTy {
        name: "TestJson".to_string(),
        fields: vec![field("else", FieldTy::Str), field("http_port", FieldTy::U16)],
    };
    let config = load_struct(&ty, &tree, &vec![], &vec![]).unwrap();
    assert_eq!(
        config,
        DynValue::Struct(vec![
            ("else".to_string(), DynValue::Str("json value".to_string())),
            ("http_port".to_string(), DynValue::UInt(3000)),
        ])
    );
}

#[test]
fn test_yaml_loading() {
    let text = "else: yaml value\nhttp_port: 4000\n";
    let tree = YmlParser.load_str(text).unwrap();
    let ty = StructTy {
        name: "TestYaml".to_string(),
        fields: vec![field("else", FieldTy::Str), field("http_port", FieldTy::U16)],
    };
    let config = load_struct(&ty, &tree, &vec![], &vec![]).unwrap();
    assert_eq!(
        config,
        DynValue::Struct(vec![
            ("else".to_string(), DynValue::Str("yaml value".to_string())),
            ("http_port".to_string(), DynValue::UInt(4000)),
        ])
    );
}

#[test]
fn test_default_values() {
    let tree = TomlParser.load_str("http_port = 8080\n").unwrap();
    let ty = StructTy {
        name: "TestDefault".to_string(),
        fields: vec![FieldDef {
            key: "missing_field".to_string(),
            insensitive: false,
            arg_override: None,
            env_override: None,
            default: Some(DynValue::Str("default value".to_string())),
            optional: false,
            ty: FieldTy::Str,
        }],
    };
    let config = load_struct(&ty, &tree, &vec![], &vec![]).unwrap();
    assert_eq!(
        config,
        DynValue::Struct(vec![(
            "missing_field".to_string(),
            DynValue::Str("default value".to_string())
        )])
    );
}

#[test]
fn test_array_toml() {
    let tree = TomlParser.load_str("values = [1, 2, 3]\nnames = [\"a\", \"b\"]\n").unwrap();
    let ty = StructTy {
        name: "Arrays".to_string(),
        fields: vec![
            field("values", FieldTy::List(Box::new(FieldTy::U32))),
            field("names", FieldTy::List(Box::new(FieldTy::Str))),
        ],
    };
    let config = load_struct(&ty, &tree, &vec![], &vec![]).unwrap();
    assert_eq!(
        config,
        DynValue::Struct(vec![
            ("values".to_string(), uints(&[1, 2, 3])),
            ("names".to_string(), strings(&["a", "b"])),
        ])
    );
}

#[test]
fn test_array_json() {
    let tree = JsonParser.load_str("{ \"ports\": [10, 20, 30] }").unwrap();
    let ty = StructTy {
        name: "Arrays".to_string(),
        fields: vec![field("ports", FieldTy::List(Box::new(FieldTy::U16)))],
    };
    let config = load_struct(&ty, &tree, &vec![], &vec![]).unwrap();
    assert_eq!(
        config,
        DynValue::Struct(vec![("ports".to_string(), uints(&[10, 20, 30]))])
    );
}

#[test]
fn test_array_yaml() {
    let tree = YmlParser.load_str("ports:\n- 100\n- 200\n- 300\nnames:\n- alpha\n- beta\n- gamma\n")
        .unwrap();
    let ty = StructTy {
        name: "Arrays".to_string(),
        fields: vec![
            field("ports", FieldTy::List(Box::new(FieldTy::U32))),
            field("names", FieldTy::List(Box::new(FieldTy::Str))),
        ],
    };
    let config = load_struct(&ty, &tree, &vec![], &vec![]).unwrap();
    assert_eq!(
        config,
        DynValue::Struct(vec![
            ("ports".to_string(), uints(&[100, 200, 300])),
            ("names".to_string(), strings(&["alpha", "beta", "gamma"])),
        ])
    );
}

#[test]
fn test_nested_array_toml() {
    let tree = TomlParser.load_str("matrix = [[1, 2], [3, 4]]\n").unwrap();
    let ty = StructTy {
        name: "Nested".to_string(),
        fields: vec![field(
            "matrix",
            FieldTy::List(Box::new(FieldTy::List(Box::new(FieldTy::U8)))),
        )],
    };
    let config = load_struct(&ty, &tree, &vec![], &vec![]).unwrap();
    assert_eq!(
        config,
        DynValue::Struct(vec![(
            "matrix".to_string(),
            DynValue::List(vec![uints(&[1, 2]), uints(&[3, 4])])
        )])
    );
}

#[test]
fn root_must_be_a_section() {
    let ty = StructTy { name: "Any".to_string(), fields: vec![] };
    let not_a_section = ConfigValue::Value("scalar".to_string());
    let err = load_struct(&ty, &not_a_section, &vec![], &vec![]).unwrap_err();
    assert_eq!(
        err,
        ParserError::TypeMismatch {
            field: "root".to_string(),
            expected: "section".to_string(),
            found: None,
        }
    );
}
