//! The format adapters: every format normalizes scalars into the same
//! canonical string form, and format selection by extension and tag.

use cruct::cli::CliSource;
use cruct::file::{ConfigFileSource, FileSource};
use cruct::parser::{
    get_file_extension, get_parser, FileFormat, JsonParser, ParserError, TomlParser, YmlParser,
};
use cruct::value::section_get;
use cruct::ConfigValue;

#[test]
fn toml_scalars_normalize_to_strings() {
    let tree = TomlParser.load_str("port = 8080\nname = \"svc\"\non = true\n").unwrap();
    if let ConfigValue::Section(es) = tree {
        assert_eq!(
            section_get(&es, "port"),
            Some(&ConfigValue::Value("8080".to_string()))
        );
        assert_eq!(
            section_get(&es, "name"),
            Some(&ConfigValue::Value("svc".to_string()))
        );
        assert_eq!(
            section_get(&es, "on"),
            Some(&ConfigValue::Value("true".to_string()))
        );
    } else {
        panic!("Expected section");
    }
}

#[test]
fn json_scalars_normalize_to_strings() {
    let tree = JsonParser
        .load_str("{ \"port\": 8080, \"name\": \"svc\", \"on\": true, \"none\": null }")
        .unwrap();
    if let ConfigValue::Section(es) = tree {
        assert_eq!(
            section_get(&es, "port"),
            Some(&ConfigValue::Value("8080".to_string()))
        );
        assert_eq!(
            section_get(&es, "name"),
            Some(&ConfigValue::Value("svc".to_string()))
        );
        assert_eq!(
            section_get(&es, "on"),
            Some(&ConfigValue::Value("true".to_string()))
        );
        assert_eq!(section_get(&es, "none"), Some(&ConfigValue::Null));
    } else {
        panic!("Expected section");
    }
}

#[test]
fn yaml_scalars_normalize_to_strings() {
    let tree = YmlParser.load_str("port: 8080\nname: svc\non_flag: true\n").unwrap();
    if let ConfigValue::Section(es) = tree {
        assert_eq!(
            section_get(&es, "port"),
            Some(&ConfigValue::Value("8080".to_string()))
        );
        assert_eq!(
            section_get(&es, "name"),
            Some(&ConfigValue::Value("svc".to_string()))
        );
        assert_eq!(
            section_get(&es, "on_flag"),
            Some(&ConfigValue::Value("true".to_string()))
        );
    } else {
        panic!("Expected section");
    }
}

#[test]
fn yaml_arrays_and_nesting() {
    let tree = YmlParser.load_str("outer:\n  inner: value\nitems:\n- item1\n- item2\n").unwrap();
    if let ConfigValue::Section(es) = tree {
        if let Some(ConfigValue::Section(outer)) = section_get(&es, "outer") {
            assert_eq!(
                section_get(outer, "inner"),
                Some(&ConfigValue::Value("value".to_string()))
            );
        } else {
            panic!("expected section");
        }
        assert_eq!(
            section_get(&es, "items"),
            Some(&ConfigValue::Array(vec![
                ConfigValue::Value("item1".to_string()),
                ConfigValue::Value("item2".to_string()),
            ]))
        );
    } else {
        panic!("Expected section");
    }
}

#[test]
fn toml_arrays_and_inline_tables() {
    let tree = TomlParser
        .load_str("items = [\"item1\", \"item2\"]\ninline = { key = \"value\" }\n")
        .unwrap();
    if let ConfigValue::Section(es) = tree {
        assert_eq!(
            section_get(&es, "items"),
            Some(&ConfigValue::Array(vec![
                ConfigValue::Value("item1".to_string()),
                ConfigValue::Value("item2".to_string()),
            ]))
        );
        if let Some(ConfigValue::Section(inline)) = section_get(&es, "inline") {
            assert_eq!(
                section_get(inline, "key"),
                Some(&ConfigValue::Value("value".to_string()))
            );
        } else {
            panic!("expected section");
        }
    } else {
        panic!("Expected section");
    }
}

#[test]
fn parse_errors_are_reported_per_format() {
    assert!(matches!(
        TomlParser.load_str("= nope"),
        Err(ParserError::TomlError(_))
    ));
    assert!(matches!(
        JsonParser.load_str("{ nope"),
        Err(ParserError::JsonError(_))
    ));
    assert!(matches!(
        YmlParser.load_str("invalid: yaml: syntax"),
        Err(ParserError::YamlError(_))
    ));
}

#[test]
fn empty_yaml_is_not_a_document() {
    let err = YmlParser.load_str("").unwrap_err();
    assert_eq!(
        err.message(),
        "Type mismatch in field 'document', expected non-empty YAML document"
    );
}

#[test]
fn parser_extensions_and_formats() {
    assert!(TomlParser.extensions().contains(&"toml"));
    assert!(JsonParser.extensions().contains(&"json"));
    assert!(YmlParser.extensions().contains(&"yaml"));
    assert_eq!(TomlParser.format(), FileFormat::Toml);
    assert_eq!(JsonParser.format(), FileFormat::Json);
    assert_eq!(YmlParser.format(), FileFormat::Yml);
}

#[test]
fn format_selection_by_extension() {
    assert_eq!(get_parser("yml"), Ok(FileFormat::Yml));
    assert_eq!(get_parser("yaml"), Ok(FileFormat::Yml));
    assert_eq!(get_parser("json"), Ok(FileFormat::Json));
    assert_eq!(get_parser("toml"), Ok(FileFormat::Toml));
    let err = get_parser("xml").unwrap_err();
    assert_eq!(err.message(), "'xml' is not a valid file format");
}

#[test]
fn format_names_ignore_ascii_case() {
    assert_eq!(FileFormat::from_name("Yml"), Ok(FileFormat::Yml));
    assert_eq!(FileFormat::from_name("YAML"), Ok(FileFormat::Yml));
    assert_eq!(FileFormat::from_name("Json"), Ok(FileFormat::Json));
    assert_eq!(FileFormat::from_name("Toml"), Ok(FileFormat::Toml));
    assert!(FileFormat::from_name("ini").is_err());
}

#[test]
fn file_extension_extraction() {
    assert_eq!(get_file_extension("config.toml"), Ok("toml".to_string()));
    assert_eq!(
        get_file_extension("./dir/config.test.json"),
        Ok("json".to_string())
    );
    let err = get_file_extension("noext").unwrap_err();
    assert_eq!(err, ParserError::MissingFileExtension);
    assert_eq!(err.message(), "This file has no file extension");
    assert!(get_file_extension(".hidden").is_err());
    // Trailing separators and `.` components carry no name of their own.
    assert_eq!(get_file_extension("a.b/"), Ok("b".to_string()));
    assert_eq!(get_file_extension("a.b/."), Ok("b".to_string()));
    assert!(get_file_extension("a/.//").is_err());
    // A path ending in `..` has no file name at all.
    assert!(get_file_extension("..").is_err());
    assert!(get_file_extension("dir/..").is_err());
    assert!(get_file_extension("../").is_err());
}

#[test]
fn file_extension_matches_std_path_semantics() {
    let cases = [
        "config.toml",
        "./dir/config.test.json",
        "noext",
        ".hidden",
        ".y.z",
        "foo.",
        "...",
        "..",
        ".",
        "a.b/",
        "a.b/.",
        "dir/..",
        "a/.//",
        "tar.gz/",
        "//",
        "",
    ];
    for p in cases {
        let expected = std::path::Path::new(p)
            .extension()
            .map(|e| e.to_str().unwrap().to_string());
        let got = get_file_extension(p).ok();
        assert_eq!(got, expected, "path: {}", p);
    }
}

#[test]
fn config_file_source_selects_format() {
    let explicit = ConfigFileSource::new("test.anything".to_string(), Some(FileFormat::Toml));
    assert_eq!(explicit.get_parser(), Ok(FileFormat::Toml));

    let inferred = ConfigFileSource::new("test.json".to_string(), None);
    assert_eq!(inferred.get_parser(), Ok(FileFormat::Json));

    let tree = ConfigFileSource::new("app.toml".to_string(), None)
        .load_str("foo = \"bar\"")
        .unwrap();
    if let ConfigValue::Section(es) = tree {
        assert_eq!(
            section_get(&es, "foo"),
            Some(&ConfigValue::Value("bar".to_string()))
        );
    } else {
        panic!("Expected section");
    }

    let bare = FileSource::new("app.yaml".to_string());
    assert_eq!(bare.get_parser(), Ok(FileFormat::Yml));
    let noext = FileSource::new("app".to_string());
    assert_eq!(
        noext.get_parser().unwrap_err().message(),
        "'' is not a valid file format"
    );
}

#[test]
fn cli_source_parses_flags() {
    let src = CliSource::from_args(
        0,
        vec![
            "--port=4242".to_string(),
            "positional".to_string(),
            "--debug=true".to_string(),
            "--port=9999".to_string(),
            "--novalue".to_string(),
        ],
    );
    assert_eq!(src.priority(), 0);
    let tree = src.load().unwrap();
    if let ConfigValue::Section(es) = tree {
        assert_eq!(es.len(), 2);
        assert_eq!(
            section_get(&es, "port"),
            Some(&ConfigValue::Value("9999".to_string()))
        );
        assert_eq!(
            section_get(&es, "debug"),
            Some(&ConfigValue::Value("true".to_string()))
        );
    } else {
        panic!("Expected ConfigValue::Section");
    }
}
