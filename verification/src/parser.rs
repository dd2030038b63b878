//! Errors, file formats, and the format adapters.
//!
//! Each adapter turns the text of one configuration file into a value tree,
//! normalizing scalars into their canonical string form (integers in base
//! ten, booleans as `true`/`false`) so that the rest of the engine is
//! format-agnostic. The parsing itself is done by the format crates; the
//! adapters only hand their result over, reshaped into [`ConfigValue`].

use vstd::prelude::*;

use jzon::JsonValue;
use toml_edit::{Item, Table, Value as TomlValue};
use yaml_rust2::Yaml;
use vstd::string::StrSliceExecFns;
use vstd::string::StringExecFns;

use crate::value::{ConfigValue, Node, node_wf};

verus! {

/// An error of the loading pipeline.
///
/// Every user-visible message is produced by [`ParserError::message`].
#[derive(Debug, PartialEq, Eq)]
pub enum ParserError {
    /// The given extension or format tag names no supported file format.
    InvalidFileFormat(String),
    /// A required field was absent from every source.
    MissingField(String),
    /// A value was present but could not be converted to the field's type.
    /// `found` carries a rendering of the offending value, when one is
    /// surfaced.
    TypeMismatch { field: String, expected: String, found: Option<String> },
    /// The file path has no extension to infer a format from.
    MissingFileExtension,
    /// An error below this section; the chain of sections names the path to
    /// the failing field.
    NestedError { section: String, source: Box<ParserError> },
    /// An I/O failure, carried as its rendered message.
    Io(String),
    /// The TOML text could not be parsed.
    TomlError(String),
    /// The JSON text could not be parsed.
    JsonError(String),
    /// The YAML text could not be parsed.
    YamlError(String),
}

/// The mathematical model of a [`ParserError`].
pub enum ErrNode {
    InvalidFileFormat(Seq<char>),
    MissingField(Seq<char>),
    TypeMismatch { field: Seq<char>, expected: Seq<char>, found: Option<Seq<char>> },
    MissingFileExtension,
    NestedError { section: Seq<char>, source: Box<ErrNode> },
    Io(Seq<char>),
    TomlError(Seq<char>),
    JsonError(Seq<char>),
    YamlError(Seq<char>),
}

impl ParserError {
    /// The model of this error.
    pub open spec fn model(self) -> ErrNode
        decreases self,
    {
        match self {
            ParserError::InvalidFileFormat(s) => ErrNode::InvalidFileFormat(s@),
            ParserError::MissingField(s) => ErrNode::MissingField(s@),
            ParserError::TypeMismatch { field, expected, found } => ErrNode::TypeMismatch {
                field: field@,
                expected: expected@,
                found: match found {
                    Some(f) => Some(f@),
                    None => None,
                },
            },
            ParserError::MissingFileExtension => ErrNode::MissingFileExtension,
            ParserError::NestedError { section, source } => ErrNode::NestedError {
                section: section@,
                source: Box::new((*source).model()),
            },
            ParserError::Io(s) => ErrNode::Io(s@),
            ParserError::TomlError(s) => ErrNode::TomlError(s@),
            ParserError::JsonError(s) => ErrNode::JsonError(s@),
            ParserError::YamlError(s) => ErrNode::YamlError(s@),
        }
    }
}

impl View for ParserError {
    type V = ErrNode;

    open spec fn view(&self) -> ErrNode {
        self.model()
    }
}

/// The user-visible message of an error.
pub open spec fn err_message(e: ErrNode) -> Seq<char>
    decreases e,
{
    match e {
        ErrNode::InvalidFileFormat(ext) => "'"@ + ext + "' is not a valid file format"@,
        ErrNode::MissingField(key) => "Missing required field: "@ + key,
        ErrNode::TypeMismatch { field, expected, found } => match found {
            Some(f) => "Type mismatch in field '"@ + field + "': expected "@ + expected
                + ", found '"@ + f + "'"@,
            None => "Type mismatch in field '"@ + field + "', expected "@ + expected,
        },
        ErrNode::MissingFileExtension => "This file has no file extension"@,
        ErrNode::NestedError { section, source } => "Nested configuration error in "@ + section
            + ": "@ + err_message(*source),
        ErrNode::Io(s) => s,
        ErrNode::TomlError(s) => "TOML parsing error: "@ + s,
        ErrNode::JsonError(s) => "JSON parsing error: "@ + s,
        ErrNode::YamlError(s) => "YAML parsing error: "@ + s,
    }
}

impl ParserError {
    /// Render this error as its user-visible message.
    pub fn message(&self) -> (r: String)
        ensures
            r@ == err_message(self@),
        decreases *self,
    {
        match self {
            ParserError::InvalidFileFormat(ext) => {
                let mut m = "'".to_owned();
                m.append(ext.as_str());
                m.append("' is not a valid file format");
                m
            },
            ParserError::MissingField(key) => {
                let mut m = "Missing required field: ".to_owned();
                m.append(key.as_str());
                m
            },
            ParserError::TypeMismatch { field, expected, found } => {
                match found {
                    Some(f) => {
                        let mut m = "Type mismatch in field '".to_owned();
                        m.append(field.as_str());
                        m.append("': expected ");
                        m.append(expected.as_str());
                        m.append(", found '");
                        m.append(f.as_str());
                        m.append("'");
                        m
                    },
                    None => {
                        let mut m = "Type mismatch in field '".to_owned();
                        m.append(field.as_str());
                        m.append("', expected ");
                        m.append(expected.as_str());
                        m
                    },
                }
            },
            ParserError::MissingFileExtension => "This file has no file extension".to_owned(),
            ParserError::NestedError { section, source } => {
                let mut m = "Nested configuration error in ".to_owned();
                m.append(section.as_str());
                m.append(": ");
                let inner = source.message();
                m.append(inner.as_str());
                m
            },
            ParserError::Io(s) => s.as_str().to_owned(),
            ParserError::TomlError(s) => {
                let mut m = "TOML parsing error: ".to_owned();
                m.append(s.as_str());
                m
            },
            ParserError::JsonError(s) => {
                let mut m = "JSON parsing error: ".to_owned();
                m.append(s.as_str());
                m
            },
            ParserError::YamlError(s) => {
                let mut m = "YAML parsing error: ".to_owned();
                m.append(s.as_str());
                m
            },
        }
    }
}

/// The supported file formats.
#[derive(Debug, Clone, Copy, PartialEq, Eq, Hash, Structural)]
pub enum FileFormat {
    /// YAML, whatever the `.yml` / `.yaml` spelling of the extension.
    Yml,
    /// JSON.
    Json,
    /// TOML.
    Toml,
}

/// The format a name denotes, compared without regard to ASCII case:
/// `yml` and `yaml` mean YAML, `json` JSON, `toml` TOML.
pub open spec fn format_of_name(s: Seq<char>) -> Option<FileFormat> {
    let l = crate::text::lower_seq(s);
    if l == "yml"@ || l == "yaml"@ {
        Some(FileFormat::Yml)
    } else if l == "json"@ {
        Some(FileFormat::Json)
    } else if l == "toml"@ {
        Some(FileFormat::Toml)
    } else {
        None
    }
}

/// The format a file extension selects; unlike [`format_of_name`] the match
/// is exact, extensions being conventionally lower-case.
pub open spec fn format_of_ext(s: Seq<char>) -> Option<FileFormat> {
    if s == "yml"@ || s == "yaml"@ {
        Some(FileFormat::Yml)
    } else if s == "json"@ {
        Some(FileFormat::Json)
    } else if s == "toml"@ {
        Some(FileFormat::Toml)
    } else {
        None
    }
}

impl FileFormat {
    /// Parse a format name, ignoring ASCII case.
    pub fn from_name(s: &str) -> (r: Result<FileFormat, ParserError>)
        ensures
            match r {
                Ok(f) => format_of_name(s@) == Some(f),
                Err(e) => format_of_name(s@) is None && e@ == ErrNode::InvalidFileFormat(s@),
            },
    {
        proof {
            reveal_strlit("yml");
            reveal_strlit("yaml");
            reveal_strlit("json");
            reveal_strlit("toml");
            assert(crate::text::lower_seq("yml"@) =~= "yml"@);
            assert(crate::text::lower_seq("yaml"@) =~= "yaml"@);
            assert(crate::text::lower_seq("json"@) =~= "json"@);
            assert(crate::text::lower_seq("toml"@) =~= "toml"@);
        }
        if crate::text::str_eq_ignore_ascii_case(s, "yml") || crate::text::str_eq_ignore_ascii_case(
            s,
            "yaml",
        ) {
            Ok(FileFormat::Yml)
        } else if crate::text::str_eq_ignore_ascii_case(s, "json") {
            Ok(FileFormat::Json)
        } else if crate::text::str_eq_ignore_ascii_case(s, "toml") {
            Ok(FileFormat::Toml)
        } else {
            Err(ParserError::InvalidFileFormat(s.to_owned()))
        }
    }

    /// The canonical name of this format, which doubles as its canonical
    /// extension.
    pub fn name(&self) -> (r: String)
        ensures
            *self == FileFormat::Yml ==> r@ == "yaml"@,
            *self == FileFormat::Json ==> r@ == "json"@,
            *self == FileFormat::Toml ==> r@ == "toml"@,
            format_of_ext(r@) == Some(*self),
    {
        proof {
            reveal_strlit("yml");
            reveal_strlit("yaml");
            reveal_strlit("json");
            reveal_strlit("toml");
            assert("yml"@.len() == 3);
            assert("yaml"@.len() == 4);
            assert("json"@.len() == 4);
            assert("toml"@.len() == 4);
            assert("json"@[0] == 'j' && "toml"@[0] == 't' && "yaml"@[0] == 'y');
        }
        let r = match self {
            FileFormat::Yml => "yaml".to_owned(),
            FileFormat::Json => "json".to_owned(),
            FileFormat::Toml => "toml".to_owned(),
        };
        r
    }
}

/// Select the format responsible for a file extension.
pub fn get_parser(ext: &str) -> (r: Result<FileFormat, ParserError>)
    ensures
        match r {
            Ok(f) => format_of_ext(ext@) == Some(f),
            Err(e) => format_of_ext(ext@) is None && e@ == ErrNode::InvalidFileFormat(ext@),
        },
{
    if crate::text::str_eq(ext, "yml") || crate::text::str_eq(ext, "yaml") {
        Ok(FileFormat::Yml)
    } else if crate::text::str_eq(ext, "json") {
        Ok(FileFormat::Json)
    } else if crate::text::str_eq(ext, "toml") {
        Ok(FileFormat::Toml)
    } else {
        Err(ParserError::InvalidFileFormat(ext.to_owned()))
    }
}

/// The final component of a path: what follows the last `/`, or the whole
/// path when it has none.
pub open spec fn file_component(p: Seq<char>) -> Seq<char>
    decreases p.len(),
{
    if p.len() == 0 {
        p
    } else if p.last() == '/' {
        Seq::empty()
    } else {
        file_component(p.drop_last()).push(p.last())
    }
}

/// What follows the last `.` of a file name, provided the dot is not its
/// first character (a leading dot marks a hidden file, not an extension).
pub open spec fn after_last_dot(c: Seq<char>) -> Option<Seq<char>>
    decreases c.len(),
{
    if c.len() == 0 {
        None
    } else if c.last() == '.' {
        if c.len() >= 2 {
            Some(Seq::empty())
        } else {
            None
        }
    } else {
        match after_last_dot(c.drop_last()) {
            Some(e) => Some(e.push(c.last())),
            None => None,
        }
    }
}

/// The file name of a path, the separator being `/`: its final component,
/// where trailing separators and trailing `.` components carry no name of
/// their own and are looked past; a path whose last real component is `..`,
/// like an empty path, has no file name.
pub open spec fn file_name_of(p: Seq<char>) -> Option<Seq<char>>
    decreases p.len(),
{
    if p.len() == 0 {
        None
    } else if p.last() == '/' {
        file_name_of(p.drop_last())
    } else if file_component(p) == "."@ {
        file_name_of(p.drop_last())
    } else if file_component(p) == ".."@ {
        None
    } else {
        Some(file_component(p))
    }
}

/// The extension of a path: what follows the last `.` of its file name.
pub open spec fn ext_of(p: Seq<char>) -> Option<Seq<char>> {
    match file_name_of(p) {
        Some(c) => after_last_dot(c),
        None => None,
    }
}

proof fn lemma_file_component_skip(p: Seq<char>, k: int)
    requires
        0 <= k <= p.len(),
        forall|j: int| k <= j < p.len() ==> p[j] != '/',
        k > 0 ==> p[k - 1] == '/',
    ensures
        file_component(p) =~= p.skip(k),
    decreases p.len(),
{
    if p.len() == 0 {
    } else if p.last() == '/' {
        assert(k == p.len());
    } else {
        if k == p.len() {
            assert(p[k - 1] == p.last());
            assert(false);
        }
        lemma_file_component_skip(p.drop_last(), k);
        assert(p.drop_last().skip(k).push(p.last()) =~= p.skip(k));
    }
}

proof fn lemma_after_last_dot_skip(c: Seq<char>, k: int)
    requires
        1 <= k < c.len() || k == c.len(),
        forall|j: int| k <= j < c.len() ==> c[j] != '.',
        1 <= k <= c.len() ==> c[k - 1] == '.',
        k >= 2,
    ensures
        after_last_dot(c) == Some(c.skip(k)),
    decreases c.len(),
{
    if c.last() == '.' {
        assert(k == c.len());
        assert(c.skip(k) =~= Seq::<char>::empty());
    } else {
        assert(k < c.len());
        lemma_after_last_dot_skip(c.drop_last(), k);
        assert(c.drop_last().skip(k).push(c.last()) =~= c.skip(k));
    }
}

proof fn lemma_after_last_dot_none(c: Seq<char>)
    requires
        forall|j: int| 1 <= j < c.len() ==> c[j] != '.',
    ensures
        after_last_dot(c) is None,
    decreases c.len(),
{
    if c.len() == 0 {
    } else if c.last() == '.' {
        assert(c.len() == 1) by {
            if c.len() >= 2 {
                assert(c[c.len() - 1] == '.');
            }
        }
    } else {
        lemma_after_last_dot_none(c.drop_last());
    }
}

/// The extension of a file path, or [`ParserError::MissingFileExtension`]
/// when its file name has none.
#[verifier::loop_isolation(false)]
#[verifier::rlimit(50)]
pub fn get_file_extension(path: &str) -> (r: Result<String, ParserError>)
    ensures
        match r {
            Ok(e) => ext_of(path@) == Some(e@),
            Err(e) => ext_of(path@) is None && e@ == ErrNode::MissingFileExtension,
        },
{
    let n = path.unicode_len();
    proof {
        assert(path@.take(n as int) =~= path@);
    }
    // The effective end of the path: trailing separators and trailing `.`
    // components carry no file name and are walked past.
    let mut end: usize = n;
    loop
        invariant
            end <= n,
            n == path@.len(),
            file_name_of(path@) == file_name_of(path@.take(end as int)),
        decreases end,
    {
        let ghost cur = path@.take(end as int);
        if end == 0 {
            proof {
                assert(cur.len() == 0);
            }
            return Err(ParserError::MissingFileExtension);
        }
        proof {
            assert(cur.last() == path@[end - 1]);
            assert(cur.drop_last() =~= path@.take(end - 1));
        }
        if path.get_char(end - 1) == '/' {
            end = end - 1;
        } else {
            // Where the final component of the path so far starts.
            let mut cs: usize = 0;
            let mut s: usize = 0;
            while s < end
                invariant
                    cs <= s <= end,
                    cs > 0 ==> path@[cs - 1] == '/',
                    forall|j: int| cs <= j < s ==> path@[j] != '/',
                decreases end - s,
            {
                if path.get_char(s) == '/' {
                    cs = s + 1;
                }
                s = s + 1;
            }
            let ghost comp = path@.subrange(cs as int, end as int);
            proof {
                assert(forall|j: int| cs <= j < cur.len() ==> cur[j] == path@[j] && cur[j] != '/');
                lemma_file_component_skip(cur, cs as int);
                assert(cur.skip(cs as int) =~= comp);
                assert(file_component(cur) == comp);
                reveal_strlit(".");
                reveal_strlit("..");
                assert("."@.len() == 1);
                assert("."@[0] == '.');
                assert(".."@.len() == 2);
                assert(".."@[0] == '.' && ".."@[1] == '.');
            }
            if end - cs == 1 && path.get_char(cs) == '.' {
                // A bare `.` component carries no name; look further left.
                proof {
                    assert(comp =~= "."@);
                }
                end = end - 1;
            } else if end - cs == 2 && path.get_char(cs) == '.' && path.get_char(cs + 1) == '.' {
                // A path ending in `..` has no file name at all.
                proof {
                    assert(comp =~= ".."@);
                    assert(file_name_of(cur) is None);
                }
                return Err(ParserError::MissingFileExtension);
            } else {
                proof {
                    if comp == "."@ {
                        assert(comp.len() == 1 && comp[0] == '.');
                        assert(false);
                    }
                    if comp == ".."@ {
                        assert(comp.len() == 2 && comp[0] == '.' && comp[1] == '.');
                        assert(false);
                    }
                    assert(file_name_of(cur) == Some(comp));
                    assert(ext_of(path@) == after_last_dot(comp));
                }
                // Find the last '.' of the file name, if any.
                let mut dot_pos: usize = 0;
                let mut found: bool = false;
                let mut i = cs;
                while i < end
                    invariant
                        cs <= i <= end,
                        found ==> cs <= dot_pos < i && path@[dot_pos as int] == '.' && forall|
                            j: int,
                        | dot_pos < j < i ==> path@[j] != '.',
                        !found ==> forall|j: int| cs <= j < i ==> path@[j] != '.',
                    decreases end - i,
                {
                    if path.get_char(i) == '.' {
                        dot_pos = i;
                        found = true;
                    }
                    i = i + 1;
                }
                if found && dot_pos > cs {
                    proof {
                        let k = dot_pos + 1 - cs as int;
                        assert(comp[k - 1] == path@[dot_pos as int]);
                        assert(forall|j: int| k <= j < comp.len() ==> comp[j] == path@[
                            j + cs] && comp[j] != '.');
                        lemma_after_last_dot_skip(comp, k);
                        assert(comp.skip(k) =~= path@.subrange(dot_pos + 1 as int, end as int));
                    }
                    let ext = path.substring_char(dot_pos + 1, end);
                    return Ok(ext.to_owned());
                } else {
                    proof {
                        if found {
                            assert(dot_pos == cs);
                            assert(forall|j: int| 1 <= j < comp.len() ==> comp[j] == path@[
                                j + cs] && comp[j] != '.');
                            lemma_after_last_dot_none(comp);
                        } else {
                            assert(forall|j: int| 0 <= j < comp.len() ==> comp[j] == path@[
                                j + cs] && comp[j] != '.');
                            lemma_after_last_dot_none(comp);
                        }
                    }
                    return Err(ParserError::MissingFileExtension);
                }
            }
        }
    }
}

#[verifier::external_type_specification]
#[verifier::external_body]
pub struct ExJsonValue(jzon::JsonValue);

#[verifier::external_type_specification]
#[verifier::external_body]
pub struct ExYaml(yaml_rust2::Yaml);

#[verifier::external_type_specification]
#[verifier::external_body]
pub struct ExTomlItem(toml_edit::Item);

#[verifier::external_type_specification]
#[verifier::external_body]
pub struct ExTomlTable(toml_edit::Table);

#[verifier::external_type_specification]
#[verifier::external_body]
pub struct ExTomlValue(toml_edit::Value);

/// The tree that TOML text parses to, when it parses at all.
pub uninterp spec fn toml_tree_of(text: Seq<char>) -> Option<Node>;

/// The tree that JSON text parses to, when it parses at all.
pub uninterp spec fn json_tree_of(text: Seq<char>) -> Option<Node>;

/// The tree of the first document of YAML text: the outer option is whether
/// the text scans, the inner whether it holds any document at all.
pub uninterp spec fn yaml_tree_of(text: Seq<char>) -> Option<Option<Node>>;

/// Reshapes one parsed JSON value into the value tree: objects become
/// sections, arrays become sequences, `null` becomes the null leaf, and the
/// remaining scalars take their `Display` form, which for strings, numbers
/// and booleans is the bare value. Called only from `json_parse_text`.
#[verifier::external_body]
fn json_tree(value: &JsonValue) -> ConfigValue {
    match value {
        JsonValue::Object(obj) => ConfigValue::Section(
            obj.iter().map(|(k, v)| (k.to_string(), json_tree(v))).collect(),
        ),
        JsonValue::Array(arr) => ConfigValue::Array(arr.iter().map(json_tree).collect()),
        JsonValue::Null => ConfigValue::Null,
        other => ConfigValue::Value(other.to_string()),
    }
}

/// Relies on `jzon::parse`: whether JSON text parses, and the value it
/// yields, are functions of the text alone; object keys are unique, so the
/// resulting tree is well-formed.
#[verifier::external_body]
fn json_parse_text(text: &str) -> (r: Result<ConfigValue, String>)
    ensures
        match r {
            Ok(t) => json_tree_of(text@) == Some(t@) && t.wf(),
            Err(_) => json_tree_of(text@) is None,
        },
{
    match jzon::parse(text) {
        Ok(v) => Ok(json_tree(&v)),
        Err(e) => Err(e.to_string()),
    }
}

/// Reshapes one parsed TOML item into the value tree. Called only from
/// `toml_parse_text`.
#[verifier::external_body]
fn toml_item_tree(item: &Item) -> ConfigValue {
    match item {
        Item::None => ConfigValue::Array(Vec::new()),
        Item::Value(v) => toml_value_tree(v),
        Item::Table(t) => toml_table_tree(t),
        Item::ArrayOfTables(ts) => ConfigValue::Array(ts.iter().map(toml_table_tree).collect()),
    }
}

/// Reshapes one parsed TOML table into a section. Called only from the TOML
/// adapter.
#[verifier::external_body]
fn toml_table_tree(table: &Table) -> ConfigValue {
    ConfigValue::Section(table.iter().map(|(k, v)| (k.to_string(), toml_item_tree(v))).collect())
}

/// Reshapes one parsed TOML value into the value tree: scalars take their
/// canonical string form (integers and floats via `Display`, booleans as
/// `true`/`false`, datetimes in RFC 3339 form). Called only from the TOML
/// adapter.
#[verifier::external_body]
fn toml_value_tree(value: &TomlValue) -> ConfigValue {
    match value {
        TomlValue::String(s) => ConfigValue::Value(s.value().clone()),
        TomlValue::Integer(i) => ConfigValue::Value(i.value().to_string()),
        TomlValue::Float(f) => ConfigValue::Value(f.value().to_string()),
        TomlValue::Boolean(b) => ConfigValue::Value(b.value().to_string()),
        TomlValue::Datetime(d) => ConfigValue::Value(d.value().to_string()),
        TomlValue::Array(a) => ConfigValue::Array(a.iter().map(toml_value_tree).collect()),
        TomlValue::InlineTable(t) => ConfigValue::Section(
            t.iter().map(|(k, v)| (k.to_string(), toml_value_tree(v))).collect(),
        ),
    }
}

/// Relies on `toml_edit::DocumentMut`'s `FromStr`: whether TOML text parses,
/// and the document it yields, are functions of the text alone. A document
/// is a table whose keys are unique at every depth, so the resulting tree is
/// a well-formed section.
#[verifier::external_body]
fn toml_parse_text(text: &str) -> (r: Result<ConfigValue, String>)
    ensures
        match r {
            Ok(t) => toml_tree_of(text@) == Some(t@) && t.wf() && t@ is Section,
            Err(_) => toml_tree_of(text@) is None,
        },
{
    match text.parse::<toml_edit::DocumentMut>() {
        Ok(doc) => Ok(toml_item_tree(doc.as_item())),
        Err(e) => Err(e.to_string()),
    }
}

/// Reshapes one parsed YAML node into the value tree: hashes become
/// sections (entries under a non-string key are dropped, keys being strings
/// in this data model; a hash's keys are unique), arrays become sequences,
/// null becomes the null leaf, and scalars take their canonical string form.
/// Alias nodes and invalid nodes — a mistagged scalar such as a non-numeric
/// value tagged as an integer — also normalize to the null leaf. Called only
/// from `yaml_parse_text`.
#[verifier::external_body]
fn yaml_tree(value: &Yaml) -> ConfigValue {
    match value {
        Yaml::Hash(h) => ConfigValue::Section(h.iter().filter_map(|(k, v)| match k {
            Yaml::String(s) => Some((s.clone(), yaml_tree(v))),
            _ => None,
        }).collect()),
        Yaml::Array(a) => ConfigValue::Array(a.iter().map(yaml_tree).collect()),
        Yaml::String(s) => ConfigValue::Value(s.clone()),
        Yaml::Real(s) => ConfigValue::Value(s.clone()),
        Yaml::Integer(i) => ConfigValue::Value(i.to_string()),
        Yaml::Boolean(b) => ConfigValue::Value(b.to_string()),
        _ => ConfigValue::Null,
    }
}

/// Relies on `yaml_rust2::YamlLoader::load_from_str`: whether YAML text
/// scans, and the documents it yields, are functions of the text alone;
/// hash keys are unique, so the resulting tree is well-formed. `Ok(None)`
/// reports text that scans but holds no document.
#[verifier::external_body]
fn yaml_parse_text(text: &str) -> (r: Result<Option<ConfigValue>, String>)
    ensures
        match r {
            Ok(Some(t)) => yaml_tree_of(text@) == Some(Some(t@)) && t.wf(),
            Ok(None) => yaml_tree_of(text@) == Some(None::<Node>),
            Err(_) => yaml_tree_of(text@) is None,
        },
{
    match yaml_rust2::YamlLoader::load_from_str(text) {
        Ok(docs) => Ok(docs.first().map(yaml_tree)),
        Err(e) => Err(e.to_string()),
    }
}

/// The JSON format adapter.
pub struct JsonParser;

impl JsonParser {
    /// The file extensions this adapter serves.
    pub fn extensions(&self) -> (r: Vec<&'static str>)
        ensures
            r@.len() == 1,
            r@[0]@ == "json"@,
    {
        let mut v: Vec<&'static str> = Vec::new();
        v.push("json");
        v
    }

    /// The format this adapter serves.
    pub fn format(&self) -> (r: FileFormat)
        ensures
            r == FileFormat::Json,
    {
        FileFormat::Json
    }

    /// Parse the text of one JSON file into a value tree.
    pub fn load_str(&self, text: &str) -> (r: Result<ConfigValue, ParserError>)
        ensures
            match json_tree_of(text@) {
                Some(t) => r matches Ok(v) && v@ == t && node_wf(t),
                None => r matches Err(e) && e@ is JsonError,
            },
    {
        match json_parse_text(text) {
            Ok(v) => Ok(v),
            Err(m) => Err(ParserError::JsonError(m)),
        }
    }
}

/// The TOML format adapter.
pub struct TomlParser;

impl TomlParser {
    /// The file extensions this adapter serves.
    pub fn extensions(&self) -> (r: Vec<&'static str>)
        ensures
            r@.len() == 1,
            r@[0]@ == "toml"@,
    {
        let mut v: Vec<&'static str> = Vec::new();
        v.push("toml");
        v
    }

    /// The format this adapter serves.
    pub fn format(&self) -> (r: FileFormat)
        ensures
            r == FileFormat::Toml,
    {
        FileFormat::Toml
    }

    /// Parse the text of one TOML file into a value tree; the root of a TOML
    /// document is always a section.
    pub fn load_str(&self, text: &str) -> (r: Result<ConfigValue, ParserError>)
        ensures
            match toml_tree_of(text@) {
                Some(t) => r matches Ok(v) && v@ == t && node_wf(t) && t is Section,
                None => r matches Err(e) && e@ is TomlError,
            },
    {
        match toml_parse_text(text) {
            Ok(v) => Ok(v),
            Err(m) => Err(ParserError::TomlError(m)),
        }
    }
}

/// The YAML format adapter.
pub struct YmlParser;

impl YmlParser {
    /// The file extensions this adapter serves.
    pub fn extensions(&self) -> (r: Vec<&'static str>)
        ensures
            r@.len() == 2,
            r@[0]@ == "yml"@,
            r@[1]@ == "yaml"@,
    {
        let mut v: Vec<&'static str> = Vec::new();
        v.push("yml");
        v.push("yaml");
        v
    }

    /// The format this adapter serves.
    pub fn format(&self) -> (r: FileFormat)
        ensures
            r == FileFormat::Yml,
    {
        FileFormat::Yml
    }

    /// Parse the text of one YAML file into a value tree; text that scans
    /// but holds no document is reported as a type mismatch on the document
    /// itself.
    pub fn load_str(&self, text: &str) -> (r: Result<ConfigValue, ParserError>)
        ensures
            match yaml_tree_of(text@) {
                Some(Some(t)) => r matches Ok(v) && v@ == t && node_wf(t),
                Some(None) => r matches Err(e) && e@ == ErrNode::TypeMismatch {
                    field: "document"@,
                    expected: "non-empty YAML document"@,
                    found: None,
                },
                None => r matches Err(e) && e@ is YamlError,
            },
    {
        match yaml_parse_text(text) {
            Ok(Some(v)) => Ok(v),
            Ok(None) => Err(
                ParserError::TypeMismatch {
                    field: "document".to_owned(),
                    expected: "non-empty YAML document".to_owned(),
                    found: None,
                },
            ),
            Err(m) => Err(ParserError::YamlError(m)),
        }
    }
}

/// What parsing text of format `f` must yield: the tree the format's parser
/// gives that text, or the matching error.
pub open spec fn parse_text_post(
    f: FileFormat,
    text: Seq<char>,
    r: Result<ConfigValue, ParserError>,
) -> bool {
    match f {
        FileFormat::Toml => match toml_tree_of(text) {
            Some(t) => r matches Ok(v) && v@ == t && node_wf(t) && t is Section,
            None => r matches Err(e) && e@ is TomlError,
        },
        FileFormat::Json => match json_tree_of(text) {
            Some(t) => r matches Ok(v) && v@ == t && node_wf(t),
            None => r matches Err(e) && e@ is JsonError,
        },
        FileFormat::Yml => match yaml_tree_of(text) {
            Some(Some(t)) => r matches Ok(v) && v@ == t && node_wf(t),
            Some(None) => r matches Err(e) && e@ == ErrNode::TypeMismatch {
                field: "document"@,
                expected: "non-empty YAML document"@,
                found: None,
            },
            None => r matches Err(e) && e@ is YamlError,
        },
    }
}

impl FileFormat {
    /// Parse the text of one file of this format into a value tree.
    pub fn parse_text(&self, text: &str) -> (r: Result<ConfigValue, ParserError>)
        ensures
            parse_text_post(*self, text@, r),
    {
        match self {
            FileFormat::Toml => TomlParser.load_str(text),
            FileFormat::Json => JsonParser.load_str(text),
            FileFormat::Yml => YmlParser.load_str(text),
        }
    }
}

} // verus!
