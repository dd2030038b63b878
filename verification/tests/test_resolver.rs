//! The field resolver: the override chain, optional semantics, defaults,
//! nested structures and flat nesting, driven through whole structure
//! descriptions.

use cruct::parser::{ParserError, TomlParser};
use cruct::resolve::{load_struct, DynValue, FieldDef, FieldTy, StructTy};
use cruct::source::ConfigBuilder;
use cruct::ConfigValue;

fn plain_field(key: &str, ty: FieldTy) -> FieldDef {
    FieldDef {
        key: key.to_string(),
        insensitive: false,
        arg_override: None,
        env_override: None,
        default: None,
        optional: false,
        ty,
    }
}

fn optional_config() -> StructTy {
    StructTy {
        name: "OptionalConfig".to_string(),
        fields: vec![
            FieldDef {
                key: "optional_value".to_string(),
                insensitive: false,
                arg_override: None,
                env_override: None,
                default: None,
                optional: true,
                ty: FieldTy::Opt(Box::new(FieldTy::Str)),
            },
            FieldDef {
                key: "required_number".to_string(),
                insensitive: false,
                arg_override: None,
                env_override: None,
                default: Some(DynValue::Int(123)),
                optional: false,
                ty: FieldTy::I32,
            },
        ],
    }
}

fn resolved(fields: Vec<(&str, DynValue)>) -> DynValue {
    DynValue::Struct(fields.into_iter().map(|(k, v)| (k.to_string(), v)).collect())
}

#[test]
fn optional_field_missing_is_none() {
    let config = ConfigValue::Section(vec![]);

    let parsed = load_struct(&optional_config(), &config, &vec![], &vec![]).unwrap();

    assert_eq!(
        parsed,
        resolved(vec![
            ("optional_value", DynValue::Nothing),
            ("required_number", DynValue::Int(123)),
        ])
    );
}

#[test]
fn optional_field_present_is_some() {
    let config = ConfigValue::Section(vec![(
        "optional_value".to_string(),
        ConfigValue::Value("hello".to_string()),
    )]);

    let parsed = load_struct(&optional_config(), &config, &vec![], &vec![]).unwrap();

    assert_eq!(
        parsed,
        resolved(vec![
            ("optional_value", DynValue::Str("hello".to_string())),
            ("required_number", DynValue::Int(123)),
        ])
    );
}

#[test]
fn optional_field_type_mismatch_is_error() {
    let config = ConfigValue::Section(vec![(
        "optional_value".to_string(),
        ConfigValue::Array(vec![]),
    )]);

    let err = load_struct(&optional_config(), &config, &vec![], &vec![]).unwrap_err();

    assert_eq!(
        err.message(),
        "Type mismatch in field 'optional_value': expected \
         core::option::Option<alloc::string::String>, found '[]'"
    );
}

#[test]
fn test_nested_struct_toml() {
    let toml = "http_port = 8080\n\n[nested]\nitems = [\"foo\", \"bar\"]\nnumbers = [42, 99]\n";
    let config = TomlParser.load_str(toml).unwrap();

    let some_struct = StructTy {
        name: "SomeStruct".to_string(),
        fields: vec![
            plain_field("items", FieldTy::List(Box::new(FieldTy::Str))),
            plain_field("numbers", FieldTy::List(Box::new(FieldTy::U16))),
        ],
    };
    let nested_config = StructTy {
        name: "NestedConfig".to_string(),
        fields: vec![
            plain_field("http_port", FieldTy::U16),
            plain_field("nested", FieldTy::Struct(some_struct)),
        ],
    };

    let cfg = load_struct(&nested_config, &config, &vec![], &vec![]).unwrap();

    assert_eq!(
        cfg,
        resolved(vec![
            ("http_port", DynValue::UInt(8080)),
            (
                "nested",
                resolved(vec![
                    (
                        "items",
                        DynValue::List(vec![
                            DynValue::Str("foo".to_string()),
                            DynValue::Str("bar".to_string()),
                        ])
                    ),
                    (
                        "numbers",
                        DynValue::List(vec![DynValue::UInt(42), DynValue::UInt(99)])
                    ),
                ])
            ),
        ])
    );
}

fn test_toml_load_ty() -> StructTy {
    StructTy {
        name: "TestTomlLoad".to_string(),
        fields: vec![
            FieldDef {
                key: "else".to_string(),
                insensitive: false,
                arg_override: None,
                env_override: None,
                default: None,
                optional: false,
                ty: FieldTy::Str,
            },
            plain_field("http_port", FieldTy::U16),
        ],
    }
}

#[test]
fn test_macro_load_without_cli() {
    let toml = "else = \"toml value\"\nhttp_port = 8080\n";
    let tree = ConfigBuilder::new()
        .add_source(u8::MAX, TomlParser.load_str(toml))
        .load()
        .unwrap();

    let cfg = load_struct(&test_toml_load_ty(), &tree, &vec![], &vec![]).unwrap();
    assert_eq!(
        cfg,
        resolved(vec![
            ("else", DynValue::Str("toml value".to_string())),
            ("http_port", DynValue::UInt(8080)),
        ])
    );
}

#[test]
fn test_macro_load_with_cli_feature_enabled() {
    // Even with a command-line source registered, no flags means the
    // behavior is unchanged.
    let toml = "else = \"toml value\"\nhttp_port = 8080\n";
    let cli = cruct::cli::CliSource::new(0);
    let tree = ConfigBuilder::new()
        .add_source(u8::MAX, TomlParser.load_str(toml))
        .add_source(cli.priority(), cli.load())
        .load()
        .unwrap();

    let cfg = load_struct(&test_toml_load_ty(), &tree, &vec![], &vec![]).unwrap();
    assert_eq!(
        cfg,
        resolved(vec![
            ("else", DynValue::Str("toml value".to_string())),
            ("http_port", DynValue::UInt(8080)),
        ])
    );
}

#[test]
fn cli_override_takes_highest_priority() {
    let st = StructTy {
        name: "C".to_string(),
        fields: vec![FieldDef {
            key: "n".to_string(),
            insensitive: false,
            arg_override: Some("number".to_string()),
            env_override: None,
            default: Some(DynValue::UInt(1)),
            optional: false,
            ty: FieldTy::U32,
        }],
    };
    let config = ConfigValue::Section(vec![]);
    let args = vec!["--number=999".to_string()];

    let cfg = load_struct(&st, &config, &args, &vec![]).unwrap();
    assert_eq!(cfg, resolved(vec![("n", DynValue::UInt(999))]));
}

#[test]
fn env_override_beats_config() {
    let st = StructTy {
        name: "TestEnv".to_string(),
        fields: vec![FieldDef {
            key: "http_port".to_string(),
            insensitive: false,
            arg_override: None,
            env_override: Some("TEST_HTTP_PORT".to_string()),
            default: None,
            optional: false,
            ty: FieldTy::U16,
        }],
    };
    let config = ConfigValue::Section(vec![(
        "http_port".to_string(),
        ConfigValue::Value("8080".to_string()),
    )]);
    let env = vec![("TEST_HTTP_PORT".to_string(), "9999".to_string())];

    let cfg = load_struct(&st, &config, &vec![], &env).unwrap();
    assert_eq!(cfg, resolved(vec![("http_port", DynValue::UInt(9999))]));
}

#[test]
fn default_fallback_and_present_value() {
    let st = StructTy {
        name: "TestDefault".to_string(),
        fields: vec![FieldDef {
            key: "port".to_string(),
            insensitive: false,
            arg_override: None,
            env_override: None,
            default: Some(DynValue::UInt(8080)),
            optional: false,
            ty: FieldTy::U16,
        }],
    };
    let absent = ConfigValue::Section(vec![]);
    let cfg = load_struct(&st, &absent, &vec![], &vec![]).unwrap();
    assert_eq!(cfg, resolved(vec![("port", DynValue::UInt(8080))]));

    let present = ConfigValue::Section(vec![(
        "port".to_string(),
        ConfigValue::Value("9000".to_string()),
    )]);
    let cfg2 = load_struct(&st, &present, &vec![], &vec![]).unwrap();
    assert_eq!(cfg2, resolved(vec![("port", DynValue::UInt(9000))]));
}

#[test]
fn test_case_insensitive() {
    let st = StructTy {
        name: "TestInsensitive".to_string(),
        fields: vec![FieldDef {
            key: "HTTP_PORT".to_string(),
            insensitive: true,
            arg_override: None,
            env_override: None,
            default: None,
            optional: false,
            ty: FieldTy::U16,
        }],
    };
    let config = ConfigValue::Section(vec![(
        "http_port".to_string(),
        ConfigValue::Value("8080".to_string()),
    )]);

    let cfg = load_struct(&st, &config, &vec![], &vec![]).unwrap();
    assert_eq!(cfg, resolved(vec![("HTTP_PORT", DynValue::UInt(8080))]));
}

#[test]
fn test_missing_field() {
    let st = StructTy {
        name: "TestMissing".to_string(),
        fields: vec![plain_field("missing_field", FieldTy::Str)],
    };
    let config = ConfigValue::Section(vec![]);

    match load_struct(&st, &config, &vec![], &vec![]) {
        Err(ParserError::MissingField(field)) => {
            assert_eq!(field, "missing_field");
            assert_eq!(
                ParserError::MissingField(field).message(),
                "Missing required field: missing_field"
            );
        }
        Ok(_) => panic!("Expected MissingField error"),
        Err(e) => panic!("Unexpected error: {:?}", e),
    }
}

#[test]
fn flat_nested_structs_load_correctly() {
    let inner = StructTy {
        name: "Nested".to_string(),
        fields: vec![
            plain_field("value", FieldTy::U32),
            plain_field("flag", FieldTy::Bool),
        ],
    };
    let outer = StructTy {
        name: "Outer".to_string(),
        fields: vec![
            plain_field("top_level", FieldTy::Str),
            plain_field("nested", FieldTy::Struct(inner)),
        ],
    };

    // The nested struct's fields live under a dedicated sub-section.
    let with_key = ConfigValue::Section(vec![
        (
            "top_level".to_string(),
            ConfigValue::Value("root_value".to_string()),
        ),
        (
            "nested".to_string(),
            ConfigValue::Section(vec![
                ("value".to_string(), ConfigValue::Value("42".to_string())),
                ("flag".to_string(), ConfigValue::Value("true".to_string())),
            ]),
        ),
    ]);
    let cfg = load_struct(&outer, &with_key, &vec![], &vec![]).unwrap();
    assert_eq!(
        cfg,
        resolved(vec![
            ("top_level", DynValue::Str("root_value".to_string())),
            (
                "nested",
                resolved(vec![
                    ("value", DynValue::UInt(42)),
                    ("flag", DynValue::Bool(true)),
                ])
            ),
        ])
    );

    // The same sub-fields as top-level siblings, with no dedicated key:
    // the flat-nesting fallback resolves them from the parent's section.
    let inner2 = StructTy {
        name: "Nested".to_string(),
        fields: vec![
            plain_field("value", FieldTy::U32),
            plain_field("flag", FieldTy::Bool),
        ],
    };
    let outer2 = StructTy {
        name: "Outer".to_string(),
        fields: vec![
            plain_field("top_level", FieldTy::Str),
            plain_field("nested", FieldTy::Struct(inner2)),
        ],
    };
    let flat = ConfigValue::Section(vec![
        (
            "top_level".to_string(),
            ConfigValue::Value("root_value".to_string()),
        ),
        ("value".to_string(), ConfigValue::Value("42".to_string())),
        ("flag".to_string(), ConfigValue::Value("true".to_string())),
    ]);
    let cfg2 = load_struct(&outer2, &flat, &vec![], &vec![]).unwrap();
    assert_eq!(
        cfg2,
        resolved(vec![
            ("top_level", DynValue::Str("root_value".to_string())),
            (
                "nested",
                resolved(vec![
                    ("value", DynValue::UInt(42)),
                    ("flag", DynValue::Bool(true)),
                ])
            ),
        ])
    );
}

#[test]
fn priority_ordering_two_sources() {
    // Source A: priority 5, key x absent; source B: priority 1, x = 20.
    // Aggregation yields x == 20 in either registration order.
    let a = || {
        Ok::<ConfigValue, ParserError>(ConfigValue::Section(vec![(
            "y".to_string(),
            ConfigValue::Value("1".to_string()),
        )]))
    };
    let b = || {
        Ok::<ConfigValue, ParserError>(ConfigValue::Section(vec![(
            "x".to_string(),
            ConfigValue::Value("20".to_string()),
        )]))
    };

    for (first_p, first, second_p, second) in [(5u8, a(), 1u8, b()), (1u8, b(), 5u8, a())] {
        let tree = ConfigBuilder::new()
            .add_source(first_p, first)
            .add_source(second_p, second)
            .load()
            .unwrap();
        if let ConfigValue::Section(es) = tree {
            assert_eq!(
                cruct::value::section_get(&es, "x"),
                Some(&ConfigValue::Value("20".to_string()))
            );
        } else {
            panic!("Expected section");
        }
    }
}

#[test]
fn aggregation_stops_at_first_load_error() {
    let result = ConfigBuilder::new()
        .add_source(1, Err(ParserError::Io("gone".to_string())))
        .add_source(2, Ok(ConfigValue::Section(vec![])))
        .load();
    assert_eq!(result, Err(ParserError::Io("gone".to_string())));
}

#[test]
fn nested_error_names_the_failing_element() {
    let st = StructTy {
        name: "Arr".to_string(),
        fields: vec![plain_field("ports", FieldTy::List(Box::new(FieldTy::U16)))],
    };
    let config = ConfigValue::Section(vec![(
        "ports".to_string(),
        ConfigValue::Array(vec![
            ConfigValue::Value("80".to_string()),
            ConfigValue::Value("oops".to_string()),
        ]),
    )]);
    let err = load_struct(&st, &config, &vec![], &vec![]).unwrap_err();
    let msg = err.message();
    assert!(msg.starts_with("Nested configuration error in ports: "));
    assert!(msg.contains("Nested configuration error in [1]: "));
}
