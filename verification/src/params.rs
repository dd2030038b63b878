//! Validation of the declaration parameters that describe how a structure
//! loads: which file to read, in what format and at what priority, and how
//! each field is looked up. The surrounding tooling hands the parameters in
//! as plain key/value pairs; this module checks keys and value types and
//! builds the typed descriptions.

use vstd::prelude::*;
use vstd::string::StringExecFns;

use crate::parser::FileFormat;
use crate::scalars::dec_str;

verus! {

/// One parameter value as the declaration tooling hands it over.
#[derive(Debug, PartialEq, Eq)]
pub enum ParamValue {
    /// A string literal.
    Str(String),
    /// An unsigned integer literal.
    Int(u64),
    /// A boolean literal.
    Bool(bool),
    /// Anything else, carried as its rendered text for error messages.
    Other(String),
}

/// The model of a parameter value.
pub enum ParamNode {
    Str(Seq<char>),
    Int(u64),
    Bool(bool),
    Other(Seq<char>),
}

impl View for ParamValue {
    type V = ParamNode;

    open spec fn view(&self) -> ParamNode {
        match *self {
            ParamValue::Str(s) => ParamNode::Str(s@),
            ParamValue::Int(n) => ParamNode::Int(n),
            ParamValue::Bool(b) => ParamNode::Bool(b),
            ParamValue::Other(t) => ParamNode::Other(t@),
        }
    }
}

/// The rendering of a parameter value in error messages: strings in quotes,
/// numbers and booleans bare, anything else as its own text.
pub open spec fn param_render(v: ParamNode) -> Seq<char> {
    match v {
        ParamNode::Str(s) => "\""@ + s + "\""@,
        ParamNode::Int(n) => dec_str(n as nat),
        ParamNode::Bool(b) => if b {
            "true"@
        } else {
            "false"@
        },
        ParamNode::Other(t) => t,
    }
}

/// Render a parameter value for an error message.
pub fn render_param(v: &ParamValue) -> (r: String)
    ensures
        r@ == param_render(v@),
{
    match v {
        ParamValue::Str(s) => {
            let mut m = "\"".to_owned();
            m.append(s.as_str());
            m.append("\"");
            m
        },
        ParamValue::Int(n) => crate::scalars::u64_to_string(*n),
        ParamValue::Bool(b) => {
            if *b {
                "true".to_owned()
            } else {
                "false".to_owned()
            }
        },
        ParamValue::Other(t) => t.clone(),
    }
}

/// An error in the declaration parameters.
#[derive(Debug, PartialEq, Eq)]
pub enum ParameterError {
    /// A required parameter is absent.
    MissingRequired { name: String },
    /// A parameter has a value of the wrong type.
    InvalidType { name: String, expected: String, found: String },
    /// A parameter name that nothing recognizes.
    UnknownKey { name: String },
    /// A format name that names no supported format.
    InvalidFormat { found: String },
}

/// The model of a parameter error.
pub enum ParamErrNode {
    MissingRequired { name: Seq<char> },
    InvalidType { name: Seq<char>, expected: Seq<char>, found: Seq<char> },
    UnknownKey { name: Seq<char> },
    InvalidFormat { found: Seq<char> },
}

impl View for ParameterError {
    type V = ParamErrNode;

    open spec fn view(&self) -> ParamErrNode {
        match self {
            ParameterError::MissingRequired { name } => ParamErrNode::MissingRequired {
                name: name@,
            },
            ParameterError::InvalidType { name, expected, found } => ParamErrNode::InvalidType {
                name: name@,
                expected: expected@,
                found: found@,
            },
            ParameterError::UnknownKey { name } => ParamErrNode::UnknownKey { name: name@ },
            ParameterError::InvalidFormat { found } => ParamErrNode::InvalidFormat {
                found: found@,
            },
        }
    }
}

/// The user-visible message of a parameter error.
pub open spec fn param_err_message(e: ParamErrNode) -> Seq<char> {
    match e {
        ParamErrNode::MissingRequired { name } => "Missing required parameter '"@ + name + "'"@,
        ParamErrNode::InvalidType { name, expected, found } => "Invalid parameter type for '"@
            + name + "', expected '"@ + expected + "', found '"@ + found + "'"@,
        ParamErrNode::UnknownKey { name } => "unknown key '"@ + name + "' in load_config"@,
        ParamErrNode::InvalidFormat { found } => "invalid file format: '"@ + found
            + "' is not a valid file format"@,
    }
}

impl ParameterError {
    /// Render this error as its user-visible message.
    pub fn message(&self) -> (r: String)
        ensures
            r@ == param_err_message(self@),
    {
        match self {
            ParameterError::MissingRequired { name } => {
                let mut m = "Missing required parameter '".to_owned();
                m.append(name.as_str());
                m.append("'");
                m
            },
            ParameterError::InvalidType { name, expected, found } => {
                let mut m = "Invalid parameter type for '".to_owned();
                m.append(name.as_str());
                m.append("', expected '");
                m.append(expected.as_str());
                m.append("', found '");
                m.append(found.as_str());
                m.append("'");
                m
            },
            ParameterError::UnknownKey { name } => {
                let mut m = "unknown key '".to_owned();
                m.append(name.as_str());
                m.append("' in load_config");
                m
            },
            ParameterError::InvalidFormat { found } => {
                let mut m = "invalid file format: '".to_owned();
                m.append(found.as_str());
                m.append("' is not a valid file format");
                m
            },
        }
    }
}

/// The views of a list of key/value parameter pairs.
pub open spec fn pairs_model(ps: Seq<(String, ParamValue)>) -> Seq<(Seq<char>, ParamNode)> {
    Seq::new(ps.len(), |i: int| (ps[i].0@, ps[i].1@))
}

/// The format a declaration's format tag names: the variant names, with the
/// two YAML spellings.
pub open spec fn tag_format_of(s: Seq<char>) -> Option<FileFormat> {
    if s == "Yml"@ || s == "Yaml"@ {
        Some(FileFormat::Yml)
    } else if s == "Json"@ {
        Some(FileFormat::Json)
    } else if s == "Toml"@ {
        Some(FileFormat::Toml)
    } else {
        None
    }
}

/// Parse a declaration's format tag.
fn parse_tag_format(s: &str) -> (r: Option<FileFormat>)
    ensures
        r == tag_format_of(s@),
{
    if crate::text::str_eq(s, "Yml") || crate::text::str_eq(s, "Yaml") {
        Some(FileFormat::Yml)
    } else if crate::text::str_eq(s, "Json") {
        Some(FileFormat::Json)
    } else if crate::text::str_eq(s, "Toml") {
        Some(FileFormat::Toml)
    } else {
        None
    }
}

/// How one structure declaration loads its file: a path and an optional
/// explicit format.
#[derive(Debug)]
pub struct MacroParameters {
    /// Where the configuration file stands.
    pub path: String,
    /// The format to parse it as, when the extension is not to decide.
    pub format: Option<FileFormat>,
}

/// One step of reading the declaration parameters: fold the pair into the
/// partial state `(path, format)`.
pub open spec fn mp_step(
    st: (Option<Seq<char>>, Option<FileFormat>),
    key: Seq<char>,
    v: ParamNode,
) -> Result<(Option<Seq<char>>, Option<FileFormat>), ParamErrNode> {
    if key == "path"@ {
        match v {
            ParamNode::Str(s) => Ok((Some(s), st.1)),
            _ => Err(
                ParamErrNode::InvalidType {
                    name: "path"@,
                    expected: "&str"@,
                    found: param_render(v),
                },
            ),
        }
    } else if key == "format"@ {
        match v {
            ParamNode::Str(s) => match tag_format_of(s) {
                Some(f) => Ok((st.0, Some(f))),
                None => Err(ParamErrNode::InvalidFormat { found: s }),
            },
            _ => Err(
                ParamErrNode::InvalidType {
                    name: "format"@,
                    expected: "Yml | Yaml | Json | Toml"@,
                    found: param_render(v),
                },
            ),
        }
    } else {
        Err(ParamErrNode::UnknownKey { name: key })
    }
}

/// Fold all pairs, left to right; the first bad pair aborts.
pub open spec fn mp_fold(
    pairs: Seq<(Seq<char>, ParamNode)>,
    st: (Option<Seq<char>>, Option<FileFormat>),
) -> Result<(Option<Seq<char>>, Option<FileFormat>), ParamErrNode>
    decreases pairs.len(),
{
    if pairs.len() == 0 {
        Ok(st)
    } else {
        match mp_step(st, pairs[0].0, pairs[0].1) {
            Ok(st2) => mp_fold(pairs.drop_first(), st2),
            Err(e) => Err(e),
        }
    }
}

/// What reading the declaration parameters yields: later pairs overwrite
/// earlier ones; `path` is required, unknown keys and wrongly-typed values
/// are rejected.
pub open spec fn macro_parameters_spec(pairs: Seq<(Seq<char>, ParamNode)>) -> Result<
    (Seq<char>, Option<FileFormat>),
    ParamErrNode,
> {
    match mp_fold(pairs, (None, None)) {
        Err(e) => Err(e),
        Ok(st) => match st.0 {
            Some(p) => Ok((p, st.1)),
            None => Err(ParamErrNode::MissingRequired { name: "path"@ }),
        },
    }
}

impl MacroParameters {
    /// Read the declaration parameters from key/value pairs.
    #[verifier::loop_isolation(false)]
    pub fn parse(pairs: Vec<(String, ParamValue)>) -> (r: Result<MacroParameters, ParameterError>)
        ensures
            match r {
                Ok(mp) => macro_parameters_spec(pairs_model(pairs@)) == Ok::<
                    (Seq<char>, Option<FileFormat>),
                    ParamErrNode,
                >((mp.path@, mp.format)),
                Err(e) => macro_parameters_spec(pairs_model(pairs@)) == Err::<
                    (Seq<char>, Option<FileFormat>),
                    ParamErrNode,
                >(e@),
            },
    {
        let ghost pm = pairs_model(pairs@);
        let mut rest = pairs;
        let mut path: Option<String> = None;
        let mut format: Option<FileFormat> = None;
        let ghost mut p: int = 0;
        proof {
            assert(pm.skip(0) =~= pm);
        }
        while rest.len() > 0
            invariant
                0 <= p <= pm.len(),
                rest@.len() == pm.len() - p,
                pairs_model(rest@) =~= pm.skip(p),
                mp_fold(pm, (None, None)) == mp_fold(
                    pm.skip(p),
                    (
                        match path {
                            Some(s) => Some(s@),
                            None => None,
                        },
                        format,
                    ),
                ),
            decreases rest@.len(),
        {
            let ghost rest_old = rest@;
            let (k, v) = rest.remove(0);
            proof {
                assert(pairs_model(rest@) =~= pairs_model(rest_old).drop_first());
                assert(pairs_model(rest_old)[0] == (k@, v@));
                assert(pm.skip(p).drop_first() =~= pm.skip(p + 1));
            }
            if crate::text::str_eq(k.as_str(), "path") {
                match v {
                    ParamValue::Str(s) => {
                        path = Some(s);
                    },
                    other => {
                        return Err(
                            ParameterError::InvalidType {
                                name: "path".to_owned(),
                                expected: "&str".to_owned(),
                                found: render_param(&other),
                            },
                        );
                    },
                }
            } else if crate::text::str_eq(k.as_str(), "format") {
                match v {
                    ParamValue::Str(s) => match parse_tag_format(s.as_str()) {
                        Some(f) => {
                            format = Some(f);
                        },
                        None => {
                            return Err(ParameterError::InvalidFormat { found: s });
                        },
                    },
                    other => {
                        return Err(
                            ParameterError::InvalidType {
                                name: "format".to_owned(),
                                expected: "Yml | Yaml | Json | Toml".to_owned(),
                                found: render_param(&other),
                            },
                        );
                    },
                }
            } else {
                return Err(ParameterError::UnknownKey { name: k });
            }
            proof {
                p = p + 1;
            }
        }
        proof {
            assert(pm.skip(p).len() == 0);
        }
        match path {
            Some(pth) => Ok(MacroParameters { path: pth, format }),
            None => Err(ParameterError::MissingRequired { name: "path".to_owned() }),
        }
    }
}

/// How one field is looked up: its key override, case sensitivity,
/// environment override, and default, each optional.
#[derive(Debug)]
pub struct FieldParameters {
    /// A name override for the field's configuration key.
    pub name: Option<String>,
    /// Whether the key lookup ignores ASCII case.
    pub insensitive: bool,
    /// An environment variable consulted before the configuration tree.
    pub env_override: Option<String>,
    /// A default value, as its string form.
    pub default: Option<String>,
}

/// The partial state while reading field parameters: name, case flag,
/// environment override, default.
pub type FpState = (Option<Seq<char>>, Option<bool>, Option<Seq<char>>, Option<Seq<char>>);

/// One step of reading the field parameters.
pub open spec fn fp_step(st: FpState, key: Seq<char>, v: ParamNode) -> Result<
    FpState,
    ParamErrNode,
> {
    if key == "name"@ {
        match v {
            ParamNode::Str(s) => Ok((Some(s), st.1, st.2, st.3)),
            _ => Err(
                ParamErrNode::InvalidType {
                    name: "name"@,
                    expected: "&str"@,
                    found: param_render(v),
                },
            ),
        }
    } else if key == "insensitive"@ {
        match v {
            ParamNode::Bool(b) => Ok((st.0, Some(b), st.2, st.3)),
            _ => Err(
                ParamErrNode::InvalidType {
                    name: "insensitive"@,
                    expected: "bool"@,
                    found: param_render(v),
                },
            ),
        }
    } else if key == "env_override"@ {
        match v {
            ParamNode::Str(s) => Ok((st.0, st.1, Some(s), st.3)),
            _ => Err(
                ParamErrNode::InvalidType {
                    name: "env_override"@,
                    expected: "&str"@,
                    found: param_render(v),
                },
            ),
        }
    } else if key == "default"@ {
        match v {
            ParamNode::Str(s) => Ok((st.0, st.1, st.2, Some(s))),
            _ => Err(
                ParamErrNode::InvalidType {
                    name: "default"@,
                    expected: "&str"@,
                    found: param_render(v),
                },
            ),
        }
    } else {
        Err(ParamErrNode::UnknownKey { name: key })
    }
}

/// Fold all pairs, left to right; the first bad pair aborts.
pub open spec fn fp_fold(pairs: Seq<(Seq<char>, ParamNode)>, st: FpState) -> Result<
    FpState,
    ParamErrNode,
>
    decreases pairs.len(),
{
    if pairs.len() == 0 {
        Ok(st)
    } else {
        match fp_step(st, pairs[0].0, pairs[0].1) {
            Ok(st2) => fp_fold(pairs.drop_first(), st2),
            Err(e) => Err(e),
        }
    }
}

/// What reading the field parameters yields: every parameter optional,
/// later pairs overwriting earlier ones, case sensitivity defaulting to
/// exact matching.
pub open spec fn field_parameters_spec(pairs: Seq<(Seq<char>, ParamNode)>) -> Result<
    (Option<Seq<char>>, bool, Option<Seq<char>>, Option<Seq<char>>),
    ParamErrNode,
> {
    match fp_fold(pairs, (None, None, None, None)) {
        Err(e) => Err(e),
        Ok(st) => Ok(
            (
                st.0,
                match st.1 {
                    Some(b) => b,
                    None => false,
                },
                st.2,
                st.3,
            ),
        ),
    }
}

/// The model of an optional string.
pub open spec fn opt_view(o: Option<String>) -> Option<Seq<char>> {
    match o {
        Some(s) => Some(s@),
        None => None,
    }
}

impl FieldParameters {
    /// Read the field parameters from key/value pairs.
    #[verifier::loop_isolation(false)]
    pub fn parse(pairs: Vec<(String, ParamValue)>) -> (r: Result<FieldParameters, ParameterError>)
        ensures
            match r {
                Ok(fp) => field_parameters_spec(pairs_model(pairs@)) == Ok::<
                    (Option<Seq<char>>, bool, Option<Seq<char>>, Option<Seq<char>>),
                    ParamErrNode,
                >((opt_view(fp.name), fp.insensitive, opt_view(fp.env_override), opt_view(
                    fp.default,
                ))),
                Err(e) => field_parameters_spec(pairs_model(pairs@)) == Err::<
                    (Option<Seq<char>>, bool, Option<Seq<char>>, Option<Seq<char>>),
                    ParamErrNode,
                >(e@),
            },
    {
        let ghost pm = pairs_model(pairs@);
        let mut rest = pairs;
        let mut name: Option<String> = None;
        let mut insensitive: Option<bool> = None;
        let mut env_override: Option<String> = None;
        let mut default: Option<String> = None;
        let ghost mut p: int = 0;
        proof {
            assert(pm.skip(0) =~= pm);
        }
        while rest.len() > 0
            invariant
                0 <= p <= pm.len(),
                rest@.len() == pm.len() - p,
                pairs_model(rest@) =~= pm.skip(p),
                fp_fold(pm, (None, None, None, None)) == fp_fold(
                    pm.skip(p),
                    (opt_view(name), insensitive, opt_view(env_override), opt_view(default)),
                ),
            decreases rest@.len(),
        {
            let ghost rest_old = rest@;
            let (k, v) = rest.remove(0);
            proof {
                assert(pairs_model(rest@) =~= pairs_model(rest_old).drop_first());
                assert(pairs_model(rest_old)[0] == (k@, v@));
                assert(pm.skip(p).drop_first() =~= pm.skip(p + 1));
            }
            if crate::text::str_eq(k.as_str(), "name") {
                match v {
                    ParamValue::Str(s) => {
                        name = Some(s);
                    },
                    other => {
                        return Err(
                            ParameterError::InvalidType {
                                name: "name".to_owned(),
                                expected: "&str".to_owned(),
                                found: render_param(&other),
                            },
                        );
                    },
                }
            } else if crate::text::str_eq(k.as_str(), "insensitive") {
                match v {
                    ParamValue::Bool(b) => {
                        insensitive = Some(b);
                    },
                    other => {
                        return Err(
                            ParameterError::InvalidType {
                                name: "insensitive".to_owned(),
                                expected: "bool".to_owned(),
                                found: render_param(&other),
                            },
                        );
                    },
                }
            } else if crate::text::str_eq(k.as_str(), "env_override") {
                match v {
                    ParamValue::Str(s) => {
                        env_override = Some(s);
                    },
                    other => {
                        return Err(
                            ParameterError::InvalidType {
                                name: "env_override".to_owned(),
                                expected: "&str".to_owned(),
                                found: render_param(&other),
                            },
                        );
                    },
                }
            } else if crate::text::str_eq(k.as_str(), "default") {
                match v {
                    ParamValue::Str(s) => {
                        default = Some(s);
                    },
                    other => {
                        return Err(
                            ParameterError::InvalidType {
                                name: "default".to_owned(),
                                expected: "&str".to_owned(),
                                found: render_param(&other),
                            },
                        );
                    },
                }
            } else {
                return Err(ParameterError::UnknownKey { name: k });
            }
            proof {
                p = p + 1;
            }
        }
        proof {
            assert(pm.skip(p).len() == 0);
        }
        let insensitive_flag = match insensitive {
            Some(b) => b,
            None => false,
        };
        Ok(FieldParameters { name, insensitive: insensitive_flag, env_override, default })
    }
}

/// How one field is looked up, with a command-line override and a free-form
/// default: the richer shape of the field parameters.
#[derive(Debug)]
pub struct FieldParams {
    /// A name override for the field's configuration key.
    pub name: Option<String>,
    /// Whether the key lookup ignores ASCII case.
    pub insensitive: bool,
    /// An environment variable consulted before the configuration tree.
    pub env_override: Option<String>,
    /// A default value; any literal is accepted.
    pub default: Option<ParamValue>,
    /// A command-line flag consulted before everything else.
    pub arg_override: Option<String>,
}

/// The partial state while reading the richer field parameters: name, case
/// flag, environment override, default, argument override.
pub type FpsState = (
    Option<Seq<char>>,
    Option<bool>,
    Option<Seq<char>>,
    Option<ParamNode>,
    Option<Seq<char>>,
);

/// One step of reading the richer field parameters; `default` accepts any
/// value.
pub open spec fn fps_step(st: FpsState, key: Seq<char>, v: ParamNode) -> Result<
    FpsState,
    ParamErrNode,
> {
    if key == "name"@ {
        match v {
            ParamNode::Str(s) => Ok((Some(s), st.1, st.2, st.3, st.4)),
            _ => Err(
                ParamErrNode::InvalidType {
                    name: "name"@,
                    expected: "&str"@,
                    found: param_render(v),
                },
            ),
        }
    } else if key == "insensitive"@ {
        match v {
            ParamNode::Bool(b) => Ok((st.0, Some(b), st.2, st.3, st.4)),
            _ => Err(
                ParamErrNode::InvalidType {
                    name: "insensitive"@,
                    expected: "bool"@,
                    found: param_render(v),
                },
            ),
        }
    } else if key == "env_override"@ {
        match v {
            ParamNode::Str(s) => Ok((st.0, st.1, Some(s), st.3, st.4)),
            _ => Err(
                ParamErrNode::InvalidType {
                    name: "env_override"@,
                    expected: "&str"@,
                    found: param_render(v),
                },
            ),
        }
    } else if key == "arg_override"@ {
        match v {
            ParamNode::Str(s) => Ok((st.0, st.1, st.2, st.3, Some(s))),
            _ => Err(
                ParamErrNode::InvalidType {
                    name: "arg_override"@,
                    expected: "&str"@,
                    found: param_render(v),
                },
            ),
        }
    } else if key == "default"@ {
        Ok((st.0, st.1, st.2, Some(v), st.4))
    } else {
        Err(ParamErrNode::UnknownKey { name: key })
    }
}

/// Fold all pairs, left to right; the first bad pair aborts.
pub open spec fn fps_fold(pairs: Seq<(Seq<char>, ParamNode)>, st: FpsState) -> Result<
    FpsState,
    ParamErrNode,
>
    decreases pairs.len(),
{
    if pairs.len() == 0 {
        Ok(st)
    } else {
        match fps_step(st, pairs[0].0, pairs[0].1) {
            Ok(st2) => fps_fold(pairs.drop_first(), st2),
            Err(e) => Err(e),
        }
    }
}

/// What reading the richer field parameters yields.
pub open spec fn field_params_spec(pairs: Seq<(Seq<char>, ParamNode)>) -> Result<
    (Option<Seq<char>>, bool, Option<Seq<char>>, Option<ParamNode>, Option<Seq<char>>),
    ParamErrNode,
> {
    match fps_fold(pairs, (None, None, None, None, None)) {
        Err(e) => Err(e),
        Ok(st) => Ok(
            (
                st.0,
                match st.1 {
                    Some(b) => b,
                    None => false,
                },
                st.2,
                st.3,
                st.4,
            ),
        ),
    }
}

/// The model of an optional parameter value.
pub open spec fn opt_param_view(o: Option<ParamValue>) -> Option<ParamNode> {
    match o {
        Some(v) => Some(v@),
        None => None,
    }
}

impl FieldParams {
    /// Read the richer field parameters from key/value pairs.
    #[verifier::loop_isolation(false)]
    pub fn parse(pairs: Vec<(String, ParamValue)>) -> (r: Result<FieldParams, ParameterError>)
        ensures
            match r {
                Ok(fp) => field_params_spec(pairs_model(pairs@)) == Ok::<
                    (
                        Option<Seq<char>>,
                        bool,
                        Option<Seq<char>>,
                        Option<ParamNode>,
                        Option<Seq<char>>,
                    ),
                    ParamErrNode,
                >(
                    (
                        opt_view(fp.name),
                        fp.insensitive,
                        opt_view(fp.env_override),
                        opt_param_view(fp.default),
                        opt_view(fp.arg_override),
                    ),
                ),
                Err(e) => field_params_spec(pairs_model(pairs@)) == Err::<
                    (
                        Option<Seq<char>>,
                        bool,
                        Option<Seq<char>>,
                        Option<ParamNode>,
                        Option<Seq<char>>,
                    ),
                    ParamErrNode,
                >(e@),
            },
    {
        let ghost pm = pairs_model(pairs@);
        let mut rest = pairs;
        let mut name: Option<String> = None;
        let mut insensitive: Option<bool> = None;
        let mut env_override: Option<String> = None;
        let mut default: Option<ParamValue> = None;
        let mut arg_override: Option<String> = None;
        let ghost mut p: int = 0;
        proof {
            assert(pm.skip(0) =~= pm);
        }
        while rest.len() > 0
            invariant
                0 <= p <= pm.len(),
                rest@.len() == pm.len() - p,
                pairs_model(rest@) =~= pm.skip(p),
                fps_fold(pm, (None, None, None, None, None)) == fps_fold(
                    pm.skip(p),
                    (
                        opt_view(name),
                        insensitive,
                        opt_view(env_override),
                        opt_param_view(default),
                        opt_view(arg_override),
                    ),
                ),
            decreases rest@.len(),
        {
            let ghost rest_old = rest@;
            let (k, v) = rest.remove(0);
            proof {
                assert(pairs_model(rest@) =~= pairs_model(rest_old).drop_first());
                assert(pairs_model(rest_old)[0] == (k@, v@));
                assert(pm.skip(p).drop_first() =~= pm.skip(p + 1));
            }
            if crate::text::str_eq(k.as_str(), "name") {
                match v {
                    ParamValue::Str(s) => {
                        name = Some(s);
                    },
                    other => {
                        return Err(
                            ParameterError::InvalidType {
                                name: "name".to_owned(),
                                expected: "&str".to_owned(),
                                found: render_param(&other),
                            },
                        );
                    },
                }
            } else if crate::text::str_eq(k.as_str(), "insensitive") {
                match v {
                    ParamValue::Bool(b) => {
                        insensitive = Some(b);
                    },
                    other => {
                        return Err(
                            ParameterError::InvalidType {
                                name: "insensitive".to_owned(),
                                expected: "bool".to_owned(),
                                found: render_param(&other),
                            },
                        );
                    },
                }
            } else if crate::text::str_eq(k.as_str(), "env_override") {
                match v {
                    ParamValue::Str(s) => {
                        env_override = Some(s);
                    },
                    other => {
                        return Err(
                            ParameterError::InvalidType {
                                name: "env_override".to_owned(),
                                expected: "&str".to_owned(),
                                found: render_param(&other),
                            },
                        );
                    },
                }
            } else if crate::text::str_eq(k.as_str(), "arg_override") {
                match v {
                    ParamValue::Str(s) => {
                        arg_override = Some(s);
                    },
                    other => {
                        return Err(
                            ParameterError::InvalidType {
                                name: "arg_override".to_owned(),
                                expected: "&str".to_owned(),
                                found: render_param(&other),
                            },
                        );
                    },
                }
            } else if crate::text::str_eq(k.as_str(), "default") {
                default = Some(v);
            } else {
                return Err(ParameterError::UnknownKey { name: k });
            }
            proof {
                p = p + 1;
            }
        }
        proof {
            assert(pm.skip(p).len() == 0);
        }
        let insensitive_flag = match insensitive {
            Some(b) => b,
            None => false,
        };
        Ok(
            FieldParams {
                name,
                insensitive: insensitive_flag,
                env_override,
                default,
                arg_override,
            },
        )
    }
}

/// One file to load: its path, optional format tag, and optional priority.
#[derive(Debug)]
pub struct LoadConfig {
    /// Where the configuration file stands.
    pub path: String,
    /// The format to parse it as, when the extension is not to decide.
    pub format: Option<FileFormat>,
    /// The file's priority; smaller numeric value takes precedence, and a
    /// file without one ranks below every file that has one.
    pub priority: Option<u8>,
}

/// The model of one file entry.
pub type LcModel = (Seq<char>, Option<FileFormat>, Option<u8>);

/// The model of a file entry.
pub open spec fn lc_model(c: LoadConfig) -> LcModel {
    (c.path@, c.format, c.priority)
}

/// The models of a vector of file entries.
pub open spec fn configs_model(cs: Seq<LoadConfig>) -> Seq<LcModel> {
    Seq::new(cs.len(), |i: int| lc_model(cs[i]))
}

/// One step of reading a file entry.
pub open spec fn lc_step(st: LcModel, key: Seq<char>, v: ParamNode) -> Result<
    LcModel,
    ParamErrNode,
> {
    if key == "path"@ {
        match v {
            ParamNode::Str(s) => Ok((s, st.1, st.2)),
            _ => Err(
                ParamErrNode::InvalidType {
                    name: "path"@,
                    expected: "String"@,
                    found: param_render(v),
                },
            ),
        }
    } else if key == "format"@ {
        match v {
            ParamNode::Str(s) => match crate::parser::format_of_name(s) {
                Some(f) => Ok((st.0, Some(f), st.2)),
                None => Err(ParamErrNode::InvalidFormat { found: s }),
            },
            _ => Err(
                ParamErrNode::InvalidType {
                    name: "format"@,
                    expected: "String"@,
                    found: param_render(v),
                },
            ),
        }
    } else if key == "priority"@ {
        match v {
            ParamNode::Int(n) => if n <= u8::MAX as u64 {
                Ok((st.0, st.1, Some(n as u8)))
            } else {
                Err(
                    ParamErrNode::InvalidType {
                        name: "priority"@,
                        expected: "Integer"@,
                        found: param_render(v),
                    },
                )
            },
            _ => Err(
                ParamErrNode::InvalidType {
                    name: "priority"@,
                    expected: "Integer"@,
                    found: param_render(v),
                },
            ),
        }
    } else {
        Err(ParamErrNode::UnknownKey { name: key })
    }
}

/// Fold all pairs of one file entry, left to right.
pub open spec fn lc_fold(pairs: Seq<(Seq<char>, ParamNode)>, st: LcModel) -> Result<
    LcModel,
    ParamErrNode,
>
    decreases pairs.len(),
{
    if pairs.len() == 0 {
        Ok(st)
    } else {
        match lc_step(st, pairs[0].0, pairs[0].1) {
            Ok(st2) => lc_fold(pairs.drop_first(), st2),
            Err(e) => Err(e),
        }
    }
}

/// What reading one file entry yields: a non-empty path is required.
pub open spec fn load_config_spec(pairs: Seq<(Seq<char>, ParamNode)>) -> Result<
    LcModel,
    ParamErrNode,
> {
    match lc_fold(pairs, (Seq::empty(), None, None)) {
        Err(e) => Err(e),
        Ok(st) => if st.0.len() == 0 {
            Err(ParamErrNode::MissingRequired { name: "path"@ })
        } else {
            Ok(st)
        },
    }
}

/// The sort rank of a file entry: its priority, with an absent priority
/// ranking below every present one.
pub open spec fn lc_rank(c: LcModel) -> int {
    match c.2 {
        Some(p) => p as int,
        None => -1,
    }
}

/// Insert one file entry into a rank-descending list, after every entry of
/// equal or larger rank.
pub open spec fn lc_insert_desc(sorted: Seq<LcModel>, x: LcModel) -> Seq<LcModel>
    decreases sorted.len(),
{
    if sorted.len() == 0 {
        seq![x]
    } else if lc_rank(sorted[0]) >= lc_rank(x) {
        seq![sorted[0]] + lc_insert_desc(sorted.drop_first(), x)
    } else {
        seq![x] + sorted
    }
}

/// Stable sort of the file entries by rank, descending, so that the
/// numerically smallest priority stands last and is merged last.
pub open spec fn lc_sort_desc(cs: Seq<LcModel>) -> Seq<LcModel>
    decreases cs.len(),
{
    if cs.len() == 0 {
        cs
    } else {
        lc_insert_desc(lc_sort_desc(cs.drop_last()), cs.last())
    }
}

/// Read every file entry in order; the first bad entry aborts.
pub open spec fn collect_configs_spec(groups: Seq<Seq<(Seq<char>, ParamNode)>>) -> Result<
    Seq<LcModel>,
    ParamErrNode,
>
    decreases groups.len(),
{
    if groups.len() == 0 {
        Ok(Seq::empty())
    } else {
        match load_config_spec(groups[0]) {
            Err(e) => Err(e),
            Ok(c) => match collect_configs_spec(groups.drop_first()) {
                Ok(rest) => Ok(seq![c] + rest),
                Err(e) => Err(e),
            },
        }
    }
}

/// What reading a whole declaration yields: every file entry read, then
/// stable-sorted by priority descending.
pub open spec fn macro_params_spec(groups: Seq<Seq<(Seq<char>, ParamNode)>>) -> Result<
    Seq<LcModel>,
    ParamErrNode,
> {
    match collect_configs_spec(groups) {
        Ok(cs) => Ok(lc_sort_desc(cs)),
        Err(e) => Err(e),
    }
}

proof fn lemma_lc_insert_desc_at(s: Seq<LcModel>, x: LcModel, i: int)
    requires
        0 <= i <= s.len(),
        forall|j: int| 0 <= j < i ==> lc_rank(#[trigger] s[j]) >= lc_rank(x),
        i < s.len() ==> lc_rank(s[i]) < lc_rank(x),
    ensures
        lc_insert_desc(s, x) =~= s.take(i) + seq![x] + s.skip(i),
    decreases i,
{
    if i == 0 {
        if s.len() == 0 {
            assert(lc_insert_desc(s, x) =~= seq![x]);
            assert(s.take(0) + seq![x] + s.skip(0) =~= seq![x]);
        } else {
            assert(lc_insert_desc(s, x) =~= seq![x] + s);
            assert(s.take(0) + seq![x] + s.skip(0) =~= seq![x] + s);
        }
    } else {
        lemma_lc_insert_desc_at(s.drop_first(), x, i - 1);
        assert(lc_insert_desc(s, x) =~= seq![s[0]] + lc_insert_desc(s.drop_first(), x));
        assert(seq![s[0]] + (s.drop_first().take(i - 1) + seq![x] + s.drop_first().skip(i - 1))
            =~= s.take(i) + seq![x] + s.skip(i));
    }
}

impl LoadConfig {
    /// Read one file entry from key/value pairs.
    #[verifier::loop_isolation(false)]
    pub fn parse(pairs: Vec<(String, ParamValue)>) -> (r: Result<LoadConfig, ParameterError>)
        ensures
            match r {
                Ok(c) => load_config_spec(pairs_model(pairs@)) == Ok::<LcModel, ParamErrNode>(
                    lc_model(c),
                ),
                Err(e) => load_config_spec(pairs_model(pairs@)) == Err::<LcModel, ParamErrNode>(
                    e@,
                ),
            },
    {
        let ghost pm = pairs_model(pairs@);
        let mut rest = pairs;
        let mut path: String = "".to_owned();
        let mut format: Option<FileFormat> = None;
        let mut priority: Option<u8> = None;
        let ghost mut p: int = 0;
        proof {
            assert(pm.skip(0) =~= pm);
            reveal_strlit("");
            assert(""@.len() == 0);
            assert(""@ =~= Seq::<char>::empty());
        }
        while rest.len() > 0
            invariant
                0 <= p <= pm.len(),
                rest@.len() == pm.len() - p,
                pairs_model(rest@) =~= pm.skip(p),
                lc_fold(pm, (Seq::empty(), None, None)) == lc_fold(
                    pm.skip(p),
                    (path@, format, priority),
                ),
            decreases rest@.len(),
        {
            let ghost rest_old = rest@;
            let (k, v) = rest.remove(0);
            proof {
                assert(pairs_model(rest@) =~= pairs_model(rest_old).drop_first());
                assert(pairs_model(rest_old)[0] == (k@, v@));
                assert(pm.skip(p).drop_first() =~= pm.skip(p + 1));
            }
            if crate::text::str_eq(k.as_str(), "path") {
                match v {
                    ParamValue::Str(s) => {
                        path = s;
                    },
                    other => {
                        return Err(
                            ParameterError::InvalidType {
                                name: "path".to_owned(),
                                expected: "String".to_owned(),
                                found: render_param(&other),
                            },
                        );
                    },
                }
            } else if crate::text::str_eq(k.as_str(), "format") {
                match v {
                    ParamValue::Str(s) => match FileFormat::from_name(s.as_str()) {
                        Ok(f) => {
                            format = Some(f);
                        },
                        Err(_) => {
                            return Err(ParameterError::InvalidFormat { found: s });
                        },
                    },
                    other => {
                        return Err(
                            ParameterError::InvalidType {
                                name: "format".to_owned(),
                                expected: "String".to_owned(),
                                found: render_param(&other),
                            },
                        );
                    },
                }
            } else if crate::text::str_eq(k.as_str(), "priority") {
                match v {
                    ParamValue::Int(n) => {
                        if n <= u8::MAX as u64 {
                            priority = Some(n as u8);
                        } else {
                            return Err(
                                ParameterError::InvalidType {
                                    name: "priority".to_owned(),
                                    expected: "Integer".to_owned(),
                                    found: render_param(&ParamValue::Int(n)),
                                },
                            );
                        }
                    },
                    other => {
                        return Err(
                            ParameterError::InvalidType {
                                name: "priority".to_owned(),
                                expected: "Integer".to_owned(),
                                found: render_param(&other),
                            },
                        );
                    },
                }
            } else {
                return Err(ParameterError::UnknownKey { name: k });
            }
            proof {
                p = p + 1;
            }
        }
        proof {
            assert(pm.skip(p).len() == 0);
        }
        if path.as_str().unicode_len() == 0 {
            Err(ParameterError::MissingRequired { name: "path".to_owned() })
        } else {
            Ok(LoadConfig { path, format, priority })
        }
    }
}

/// A whole declaration: the files to load, stable-sorted by priority
/// descending so that the numerically smallest priority overrides.
#[derive(Debug)]
pub struct MacroParams {
    /// The file entries, in merge order.
    pub configs: Vec<LoadConfig>,
}

/// The sort rank of a file entry.
fn cfg_rank(c: &LoadConfig) -> (r: i16)
    ensures
        r as int == lc_rank(lc_model(*c)),
{
    match c.priority {
        Some(p) => p as i16,
        None => -1,
    }
}

impl MacroParams {
    /// Read a whole declaration: each group of key/value pairs describes one
    /// file entry; the entries are then stable-sorted by priority
    /// descending.
    #[verifier::loop_isolation(false)]
    pub fn parse(groups: Vec<Vec<(String, ParamValue)>>) -> (r: Result<MacroParams,
        ParameterError,
    >)
        ensures
            match r {
                Ok(mp) => macro_params_spec(groups_model(groups@)) == Ok::<
                    Seq<LcModel>,
                    ParamErrNode,
                >(configs_model(mp.configs@)),
                Err(e) => macro_params_spec(groups_model(groups@)) == Err::<
                    Seq<LcModel>,
                    ParamErrNode,
                >(e@),
            },
    {
        let ghost gm = groups_model(groups@);
        let mut rest = groups;
        let mut collected: Vec<LoadConfig> = Vec::new();
        let ghost mut p: int = 0;
        proof {
            assert(gm.skip(0) =~= gm);
            assert(configs_model(collected@) =~= Seq::<LcModel>::empty());
        }
        while rest.len() > 0
            invariant
                0 <= p <= gm.len(),
                rest@.len() == gm.len() - p,
                groups_model(rest@) =~= gm.skip(p),
                collect_configs_spec(gm) matches Ok(all) ==> collect_configs_spec(gm.skip(p))
                    matches Ok(suffix) && all == configs_model(collected@) + suffix,
                collect_configs_spec(gm) is Err ==> collect_configs_spec(gm.skip(p)) is Err
                    && collect_configs_spec(gm) == collect_configs_spec(gm.skip(p)),
            decreases rest@.len(),
        {
            let ghost rest_old = rest@;
            let ghost coll_old = collected@;
            let pairs = rest.remove(0);
            proof {
                assert(groups_model(rest@) =~= groups_model(rest_old).drop_first());
                assert(groups_model(rest_old)[0] == pairs_model(pairs@));
                assert(gm.skip(p).drop_first() =~= gm.skip(p + 1));
            }
            match LoadConfig::parse(pairs) {
                Err(e) => {
                    return Err(e);
                },
                Ok(c) => {
                    collected.push(c);
                    proof {
                        assert(configs_model(collected@) =~= configs_model(coll_old).push(
                            lc_model(c),
                        ));
                        assert forall|suffix: Seq<LcModel>|
                            collect_configs_spec(gm.skip(p + 1)) == Ok::<
                                Seq<LcModel>,
                                ParamErrNode,
                            >(suffix) implies configs_model(coll_old) + (seq![lc_model(c)]
                            + suffix) =~= configs_model(collected@) + suffix by {}
                    }
                },
            }
            proof {
                p = p + 1;
            }
        }
        proof {
            assert(gm.skip(p).len() == 0);
            assert(collect_configs_spec(gm.skip(p)) == Ok::<Seq<LcModel>, ParamErrNode>(
                Seq::<LcModel>::empty(),
            ));
            if collect_configs_spec(gm) matches Ok(all) {
                assert(configs_model(collected@) + Seq::<LcModel>::empty() =~= configs_model(
                    collected@,
                ));
            }
        }
        // Stable sort by priority, descending.
        let ghost cs0 = configs_model(collected@);
        let mut rest2 = collected;
        let mut sorted: Vec<LoadConfig> = Vec::new();
        let ghost mut q: int = 0;
        proof {
            assert(cs0.take(0) =~= Seq::<LcModel>::empty());
            assert(configs_model(rest2@).skip(0) =~= configs_model(rest2@));
        }
        while rest2.len() > 0
            invariant
                0 <= q <= cs0.len(),
                rest2@.len() == cs0.len() - q,
                configs_model(rest2@) =~= cs0.skip(q),
                configs_model(sorted@) == lc_sort_desc(cs0.take(q)),
            decreases rest2@.len(),
        {
            let ghost sorted_old = configs_model(sorted@);
            let ghost rest2_old = rest2@;
            let x = rest2.remove(0);
            proof {
                assert(configs_model(rest2@) =~= configs_model(rest2_old).drop_first());
                assert(configs_model(rest2_old)[0] == lc_model(x));
                assert(cs0.skip(q).drop_first() =~= cs0.skip(q + 1));
                assert(lc_model(x) == cs0[q]);
            }
            let xr = cfg_rank(&x);
            let mut i: usize = 0;
            while i < sorted.len() && cfg_rank(&sorted[i]) >= xr
                invariant
                    i <= sorted@.len(),
                    configs_model(sorted@) == sorted_old,
                    forall|j: int| 0 <= j < i ==> lc_rank(#[trigger] sorted_old[j]) >= lc_rank(
                        lc_model(x),
                    ),
                decreases sorted@.len() - i,
            {
                proof {
                    assert(lc_model(sorted@[i as int]) == sorted_old[i as int]);
                }
                i = i + 1;
            }
            proof {
                if (i as int) < sorted_old.len() {
                    assert(lc_model(sorted@[i as int]) == sorted_old[i as int]);
                }
                lemma_lc_insert_desc_at(sorted_old, lc_model(x), i as int);
            }
            sorted.insert(i, x);
            proof {
                assert(configs_model(sorted@) =~= sorted_old.take(i as int) + seq![lc_model(x)]
                    + sorted_old.skip(i as int));
                assert(configs_model(sorted@) == lc_insert_desc(sorted_old, lc_model(x)));
                assert(cs0.take(q + 1).drop_last() =~= cs0.take(q));
                assert(cs0.take(q + 1).last() == cs0[q]);
                q = q + 1;
            }
        }
        proof {
            assert(cs0.take(cs0.len() as int) =~= cs0);
        }
        Ok(MacroParams { configs: sorted })
    }
}

/// The models of the pair groups of a whole declaration.
pub open spec fn groups_model(gs: Seq<Vec<(String, ParamValue)>>) -> Seq<
    Seq<(Seq<char>, ParamNode)>,
> {
    Seq::new(gs.len(), |i: int| pairs_model(gs[i]@))
}

} // verus!
