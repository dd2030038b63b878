//! The field resolver: for each described field of a target structure it
//! walks the override chain — command-line flag, environment variable,
//! merged configuration tree, default — and converts what it finds into a
//! typed value, or reports the first structured error.
//!
//! The command-line tokens and the environment are handed in as explicit
//! values, never read from process-wide state, so resolution is a pure
//! function of its arguments.

use vstd::prelude::*;
use vstd::string::StrSliceExecFns;
use vstd::string::StringExecFns;

use crate::cli::is_prefix;
use crate::parser::{ErrNode, ParserError};
use crate::scalars::{
    dec_str,
    parse_bool_spec,
    parse_char_spec,
    parse_i64_spec,
    parse_u64_spec,
};
use crate::value::{ConfigValue, Node, entries_model, lookup_ci, lookup_in};

verus! {

broadcast use vstd::std_specs::vec::axiom_vec_decreases_to_view;

/// The type a field resolves to.
pub enum FieldTy {
    Bool,
    Char,
    U8,
    U16,
    U32,
    U64,
    I8,
    I16,
    I32,
    I64,
    /// An owned string.
    Str,
    /// A list whose elements all resolve to the inner type.
    List(Box<FieldTy>),
    /// An optional value: absence resolves to nothing instead of an error.
    Opt(Box<FieldTy>),
    /// A nested structure with its own described fields.
    Struct(StructTy),
}

/// The description of a target structure: its name, for error messages, and
/// its fields in resolution order.
pub struct StructTy {
    /// The structure's name as surfaced in type-mismatch messages.
    pub name: String,
    /// The field descriptors, resolved in order; the first error aborts.
    pub fields: Vec<FieldDef>,
}

/// The description of one field: how to find it and what to convert it to.
pub struct FieldDef {
    /// The key looked up in the configuration section.
    pub key: String,
    /// Whether the key lookup ignores ASCII case.
    pub insensitive: bool,
    /// The command-line flag consulted first, when configured.
    pub arg_override: Option<String>,
    /// The environment variable consulted next, when configured.
    pub env_override: Option<String>,
    /// The already-typed value used when nothing was found.
    pub default: Option<DynValue>,
    /// Whether absence resolves to nothing rather than an error.
    pub optional: bool,
    /// The field's target type.
    pub ty: FieldTy,
}

/// A resolved, typed value.
#[derive(Debug, PartialEq, Eq)]
pub enum DynValue {
    Bool(bool),
    Char(char),
    /// Any unsigned integer field, widened.
    UInt(u64),
    /// Any signed integer field, widened.
    Int(i64),
    Str(String),
    List(Vec<DynValue>),
    /// An optional field that resolved to no value.
    Nothing,
    /// A resolved structure: its fields by name, in descriptor order.
    Struct(Vec<(String, DynValue)>),
}

/// The mathematical model of a resolved value.
pub enum DynNode {
    Bool(bool),
    Char(char),
    UInt(u64),
    Int(i64),
    Str(Seq<char>),
    List(Seq<DynNode>),
    Nothing,
    Struct(Seq<(Seq<char>, DynNode)>),
}

/// The models of a vector of resolved values.
pub open spec fn dyn_items_model(vs: Seq<DynValue>) -> Seq<DynNode>
    decreases vs,
{
    Seq::new(
        vs.len(),
        |i: int| if 0 <= i < vs.len() {
            vs[i].model()
        } else {
            DynNode::Nothing
        },
    )
}

/// The models of a vector of resolved fields.
pub open spec fn dyn_entries_model(es: Seq<(String, DynValue)>) -> Seq<(Seq<char>, DynNode)>
    decreases es,
{
    Seq::new(
        es.len(),
        |i: int|
            if 0 <= i < es.len() {
                (es[i].0@, es[i].1.model())
            } else {
                (Seq::empty(), DynNode::Nothing)
            },
    )
}

impl DynValue {
    /// The model of this value.
    pub open spec fn model(self) -> DynNode
        decreases self,
    {
        match self {
            DynValue::Bool(b) => DynNode::Bool(b),
            DynValue::Char(c) => DynNode::Char(c),
            DynValue::UInt(n) => DynNode::UInt(n),
            DynValue::Int(n) => DynNode::Int(n),
            DynValue::Str(s) => DynNode::Str(s@),
            DynValue::List(vs) => DynNode::List(dyn_items_model(vs@)),
            DynValue::Nothing => DynNode::Nothing,
            DynValue::Struct(es) => DynNode::Struct(dyn_entries_model(es@)),
        }
    }
}

impl View for DynValue {
    type V = DynNode;

    open spec fn view(&self) -> DynNode {
        self.model()
    }
}

impl DynValue {
    /// A deep copy whose model is the same.
    #[verifier::loop_isolation(false)]
    pub fn duplicate(&self) -> (r: DynValue)
        ensures
            r@ == self@,
        decreases self,
    {
        match self {
            DynValue::Bool(b) => DynValue::Bool(*b),
            DynValue::Char(c) => DynValue::Char(*c),
            DynValue::UInt(n) => DynValue::UInt(*n),
            DynValue::Int(n) => DynValue::Int(*n),
            DynValue::Str(s) => DynValue::Str(s.clone()),
            DynValue::Nothing => DynValue::Nothing,
            DynValue::List(vs) => {
                let mut out: Vec<DynValue> = Vec::new();
                let n = vs.len();
                for i in 0..n
                    invariant
                        n == vs@.len(),
                        out@.len() == i,
                        forall|j: int| 0 <= j < i ==> (#[trigger] out@[j])@ == vs@[j]@,
                    decreases n - i,
                {
                    proof {
                        assert(decreases_to!(*self => *vs));
                        assert(decreases_to!(*vs => vs@));
                        assert(decreases_to!(vs@ => vs@[i as int]));
                    }
                    let d = vs[i].duplicate();
                    out.push(d);
                }
                proof {
                    assert(dyn_items_model(out@) =~= dyn_items_model(vs@));
                }
                DynValue::List(out)
            },
            DynValue::Struct(es) => {
                let mut out: Vec<(String, DynValue)> = Vec::new();
                let n = es.len();
                for i in 0..n
                    invariant
                        n == es@.len(),
                        out@.len() == i,
                        forall|j: int|
                            0 <= j < i ==> (#[trigger] out@[j]).0@ == es@[j].0@ && out@[j].1@
                                == es@[j].1@,
                    decreases n - i,
                {
                    proof {
                        assert(decreases_to!(*self => *es));
                        assert(decreases_to!(*es => es@));
                        assert(decreases_to!(es@ => es@[i as int]));
                        assert(decreases_to!(es@[i as int] => es@[i as int].1));
                    }
                    let k = es[i].0.clone();
                    let d = es[i].1.duplicate();
                    out.push((k, d));
                }
                proof {
                    assert(dyn_entries_model(out@) =~= dyn_entries_model(es@));
                }
                DynValue::Struct(out)
            },
        }
    }
}

/// The full name of a field type, as surfaced in type-mismatch messages.
pub open spec fn ty_name(ty: FieldTy) -> Seq<char>
    decreases ty,
{
    match ty {
        FieldTy::Bool => "bool"@,
        FieldTy::Char => "char"@,
        FieldTy::U8 => "u8"@,
        FieldTy::U16 => "u16"@,
        FieldTy::U32 => "u32"@,
        FieldTy::U64 => "u64"@,
        FieldTy::I8 => "i8"@,
        FieldTy::I16 => "i16"@,
        FieldTy::I32 => "i32"@,
        FieldTy::I64 => "i64"@,
        FieldTy::Str => "alloc::string::String"@,
        FieldTy::List(t) => "alloc::vec::Vec<"@ + ty_name(*t) + ">"@,
        FieldTy::Opt(t) => "core::option::Option<"@ + ty_name(*t) + ">"@,
        FieldTy::Struct(st) => st.name@,
    }
}

/// The full name of a field type.
pub fn ty_name_of(ty: &FieldTy) -> (r: String)
    ensures
        r@ == ty_name(*ty),
    decreases *ty,
{
    match ty {
        FieldTy::Bool => "bool".to_owned(),
        FieldTy::Char => "char".to_owned(),
        FieldTy::U8 => "u8".to_owned(),
        FieldTy::U16 => "u16".to_owned(),
        FieldTy::U32 => "u32".to_owned(),
        FieldTy::U64 => "u64".to_owned(),
        FieldTy::I8 => "i8".to_owned(),
        FieldTy::I16 => "i16".to_owned(),
        FieldTy::I32 => "i32".to_owned(),
        FieldTy::I64 => "i64".to_owned(),
        FieldTy::Str => "alloc::string::String".to_owned(),
        FieldTy::List(t) => {
            let mut s = "alloc::vec::Vec<".to_owned();
            let inner = ty_name_of(t);
            s.append(inner.as_str());
            s.append(">");
            s
        },
        FieldTy::Opt(t) => {
            let mut s = "core::option::Option<".to_owned();
            let inner = ty_name_of(t);
            s.append(inner.as_str());
            s.append(">");
            s
        },
        FieldTy::Struct(st) => st.name.clone(),
    }
}

/// The rendering of a configuration value, as surfaced in type-mismatch
/// messages: scalars stand bare, sequences in brackets, sections in braces
/// with `key: value` entries, comma-separated.
pub open spec fn render_node(n: Node) -> Seq<char>
    decreases n, 0int,
{
    match n {
        Node::Scalar(s) => s,
        Node::Null => "null"@,
        Node::Sequence(items) => "["@ + render_items(items) + "]"@,
        Node::Section(es) => "{"@ + render_entries(es) + "}"@,
    }
}

/// The comma-separated renderings of a run of values.
pub open spec fn render_items(items: Seq<Node>) -> Seq<char>
    decreases items, 1int,
{
    if items.len() == 0 {
        Seq::empty()
    } else if items.len() == 1 {
        render_node(items[0])
    } else {
        render_node(items[0]) + ", "@ + render_items(items.drop_first())
    }
}

/// The comma-separated renderings of a run of entries.
pub open spec fn render_entries(es: Seq<(Seq<char>, Node)>) -> Seq<char>
    decreases es, 1int,
{
    if es.len() == 0 {
        Seq::empty()
    } else if es.len() == 1 {
        es[0].0 + ": "@ + render_node(es[0].1)
    } else {
        es[0].0 + ": "@ + render_node(es[0].1) + ", "@ + render_entries(es.drop_first())
    }
}

/// Render a configuration value.
pub fn render(v: &ConfigValue) -> (r: String)
    ensures
        r@ == render_node(v@),
    decreases *v, 0int, 0int,
{
    match v {
        ConfigValue::Value(s) => s.clone(),
        ConfigValue::Null => "null".to_owned(),
        ConfigValue::Array(items) => {
            let mut s = "[".to_owned();
            let rest = render_items_from(items, 0);
            s.append(rest.as_str());
            s.append("]");
            proof {
                assert(crate::value::items_model(items@).skip(0) =~= crate::value::items_model(
                    items@,
                ));
            }
            s
        },
        ConfigValue::Section(es) => {
            let mut s = "{".to_owned();
            let rest = render_entries_from(es, 0);
            s.append(rest.as_str());
            s.append("}");
            proof {
                assert(entries_model(es@).skip(0) =~= entries_model(es@));
            }
            s
        },
    }
}

/// Render the values from index `from` on, comma-separated.
fn render_items_from(items: &Vec<ConfigValue>, from: usize) -> (r: String)
    requires
        from <= items@.len(),
    ensures
        r@ == render_items(crate::value::items_model(items@).skip(from as int)),
    decreases *items, 1int, items@.len() - from,
{
    let ghost m = crate::value::items_model(items@);
    let n = items.len();
    if from == n {
        proof {
            assert(m.skip(from as int).len() == 0);
            reveal_strlit("");
            assert(""@.len() == 0);
            assert(""@ =~= Seq::<char>::empty());
        }
        "".to_owned()
    } else {
        proof {
            assert(decreases_to!(*items => items@));
            assert(decreases_to!(items@ => items@[from as int]));
            assert(m.skip(from as int)[0] == m[from as int]);
        }
        let head = render(&items[from]);
        if from + 1 == n {
            proof {
                assert(m.skip(from as int).len() == 1);
            }
            head
        } else {
            let mut s = head;
            s.append(", ");
            let rest = render_items_from(items, from + 1);
            s.append(rest.as_str());
            proof {
                assert(m.skip(from as int).drop_first() =~= m.skip(from as int + 1));
            }
            s
        }
    }
}

/// Render the entries from index `from` on, comma-separated.
fn render_entries_from(es: &Vec<(String, ConfigValue)>, from: usize) -> (r: String)
    requires
        from <= es@.len(),
    ensures
        r@ == render_entries(entries_model(es@).skip(from as int)),
    decreases *es, 1int, es@.len() - from,
{
    let ghost m = entries_model(es@);
    let n = es.len();
    if from == n {
        proof {
            assert(m.skip(from as int).len() == 0);
            reveal_strlit("");
            assert(""@.len() == 0);
            assert(""@ =~= Seq::<char>::empty());
        }
        "".to_owned()
    } else {
        proof {
            assert(decreases_to!(*es => es@));
            assert(decreases_to!(es@ => es@[from as int]));
            assert(decreases_to!(es@[from as int] => es@[from as int].1));
            assert(m.skip(from as int)[0] == m[from as int]);
        }
        let mut s = es[from].0.clone();
        s.append(": ");
        let head = render(&es[from].1);
        s.append(head.as_str());
        if from + 1 == n {
            proof {
                assert(m.skip(from as int).len() == 1);
            }
            s
        } else {
            s.append(", ");
            let rest = render_entries_from(es, from + 1);
            s.append(rest.as_str());
            proof {
                assert(m.skip(from as int).drop_first() =~= m.skip(from as int + 1));
            }
            s
        }
    }
}

/// The value of the first `--flag=value` token, when one is present.
pub open spec fn cli_override(args: Seq<Seq<char>>, flag: Seq<char>) -> Option<Seq<char>>
    decreases args.len(),
{
    if args.len() == 0 {
        None
    } else if is_prefix("--"@ + flag + "="@, args[0]) {
        Some(args[0].skip(("--"@ + flag + "="@).len() as int))
    } else {
        cli_override(args.drop_first(), flag)
    }
}

/// The first binding of `name` in the environment.
pub open spec fn env_lookup(env: Seq<(Seq<char>, Seq<char>)>, name: Seq<char>) -> Option<
    Seq<char>,
>
    decreases env.len(),
{
    if env.len() == 0 {
        None
    } else if env[0].0 == name {
        Some(env[0].1)
    } else {
        env_lookup(env.drop_first(), name)
    }
}

/// The views of a vector of environment bindings.
pub open spec fn env_model(env: Seq<(String, String)>) -> Seq<(Seq<char>, Seq<char>)> {
    Seq::new(env.len(), |i: int| (env[i].0@, env[i].1@))
}

/// A conversion mismatch: the expected type, and a rendering of the value
/// that was found instead.
pub open spec fn mismatch_err(ty: FieldTy, v: Node) -> ErrNode {
    ErrNode::TypeMismatch { field: ""@, expected: ty_name(ty), found: Some(render_node(v)) }
}

/// The mismatch reported when a nested structure is handed anything but a
/// section.
pub open spec fn root_mismatch() -> ErrNode {
    ErrNode::TypeMismatch { field: "root"@, expected: "section"@, found: None }
}

/// What converting tree `v` into type `ty` yields. Scalars parse the
/// scalar's string form by the target type's textual grammar; sequences
/// convert positionally; optionals absorb nulls and missing-field failures
/// into nothing; nested structures resolve their own fields against the
/// section, consulting the same argument and environment providers.
pub open spec fn convert_spec(
    ty: FieldTy,
    v: Node,
    args: Seq<Seq<char>>,
    env: Seq<(Seq<char>, Seq<char>)>,
) -> Result<DynNode, ErrNode>
    decreases ty, 0int, 0int,
{
    match ty {
        FieldTy::Bool => match v {
            Node::Scalar(s) => match parse_bool_spec(s) {
                Some(b) => Ok(DynNode::Bool(b)),
                None => Err(mismatch_err(ty, v)),
            },
            _ => Err(mismatch_err(ty, v)),
        },
        FieldTy::Char => match v {
            Node::Scalar(s) => match parse_char_spec(s) {
                Some(c) => Ok(DynNode::Char(c)),
                None => Err(mismatch_err(ty, v)),
            },
            _ => Err(mismatch_err(ty, v)),
        },
        FieldTy::U8 => uint_convert_spec(ty, v, u8::MAX as u64),
        FieldTy::U16 => uint_convert_spec(ty, v, u16::MAX as u64),
        FieldTy::U32 => uint_convert_spec(ty, v, u32::MAX as u64),
        FieldTy::U64 => uint_convert_spec(ty, v, u64::MAX),
        FieldTy::I8 => int_convert_spec(ty, v, i8::MIN as i64, i8::MAX as i64),
        FieldTy::I16 => int_convert_spec(ty, v, i16::MIN as i64, i16::MAX as i64),
        FieldTy::I32 => int_convert_spec(ty, v, i32::MIN as i64, i32::MAX as i64),
        FieldTy::I64 => int_convert_spec(ty, v, i64::MIN, i64::MAX),
        FieldTy::Str => match v {
            Node::Scalar(s) => Ok(DynNode::Str(s)),
            _ => Err(mismatch_err(ty, v)),
        },
        FieldTy::List(t) => match v {
            Node::Sequence(items) => match convert_list_spec(*t, items, args, env, 0) {
                Ok(ds) => Ok(DynNode::List(ds)),
                Err(e) => Err(e),
            },
            _ => Err(mismatch_err(ty, v)),
        },
        FieldTy::Opt(t) => match v {
            Node::Null => Ok(DynNode::Nothing),
            _ => match convert_spec(*t, v, args, env) {
                Ok(d) => Ok(d),
                Err(e) => if e is MissingField {
                    Ok(DynNode::Nothing)
                } else {
                    Err(e)
                },
            },
        },
        FieldTy::Struct(st) => match v {
            Node::Section(es) => struct_convert_spec(st, es, args, env),
            _ => Err(root_mismatch()),
        },
    }
}

/// What an unsigned scalar of ceiling `max` converts to.
pub open spec fn uint_convert_spec(ty: FieldTy, v: Node, max: u64) -> Result<DynNode, ErrNode> {
    match v {
        Node::Scalar(s) => match parse_u64_spec(s) {
            Some(n) => if n <= max {
                Ok(DynNode::UInt(n))
            } else {
                Err(mismatch_err(ty, v))
            },
            None => Err(mismatch_err(ty, v)),
        },
        _ => Err(mismatch_err(ty, v)),
    }
}

/// What a signed scalar of range `min ..= max` converts to.
pub open spec fn int_convert_spec(ty: FieldTy, v: Node, min: i64, max: i64) -> Result<
    DynNode,
    ErrNode,
> {
    match v {
        Node::Scalar(s) => match parse_i64_spec(s) {
            Some(n) => if min <= n <= max {
                Ok(DynNode::Int(n))
            } else {
                Err(mismatch_err(ty, v))
            },
            None => Err(mismatch_err(ty, v)),
        },
        _ => Err(mismatch_err(ty, v)),
    }
}

/// What converting the elements from index `i` on yields: the first element
/// failure is wrapped in a nested error naming the index.
pub open spec fn convert_list_spec(
    t: FieldTy,
    items: Seq<Node>,
    args: Seq<Seq<char>>,
    env: Seq<(Seq<char>, Seq<char>)>,
    i: int,
) -> Result<Seq<DynNode>, ErrNode>
    decreases t, 1int, items.len() - i,
{
    if i < 0 || i >= items.len() {
        Ok(Seq::empty())
    } else {
        match convert_spec(t, items[i], args, env) {
            Err(e) => Err(
                ErrNode::NestedError {
                    section: "["@ + dec_str(i as nat) + "]"@,
                    source: Box::new(e),
                },
            ),
            Ok(d) => match convert_list_spec(t, items, args, env, i + 1) {
                Ok(rest) => Ok(seq![d] + rest),
                Err(e) => Err(e),
            },
        }
    }
}

/// What resolving a structure against a section yields: every field in
/// order, the first error aborting the assembly.
pub open spec fn struct_convert_spec(
    st: StructTy,
    es: Seq<(Seq<char>, Node)>,
    args: Seq<Seq<char>>,
    env: Seq<(Seq<char>, Seq<char>)>,
) -> Result<DynNode, ErrNode>
    decreases st, 0int, 0int,
{
    match resolve_fields_spec(st.fields@, es, args, env) {
        Ok(entries) => Ok(DynNode::Struct(entries)),
        Err(e) => Err(e),
    }
}

/// Resolve a run of fields in order, first error aborting.
pub open spec fn resolve_fields_spec(
    fds: Seq<FieldDef>,
    es: Seq<(Seq<char>, Node)>,
    args: Seq<Seq<char>>,
    env: Seq<(Seq<char>, Seq<char>)>,
) -> Result<Seq<(Seq<char>, DynNode)>, ErrNode>
    decreases fds, 1int, 0int,
{
    if fds.len() == 0 {
        Ok(Seq::empty())
    } else {
        match resolve_field_spec(fds[0], es, args, env) {
            Err(e) => Err(e),
            Ok(d) => match resolve_fields_spec(fds.drop_first(), es, args, env) {
                Ok(rest) => Ok(seq![(fds[0].key@, d)] + rest),
                Err(e) => Err(e),
            },
        }
    }
}

/// The authoritative override value for a field, when one is configured and
/// set: the command-line flag first, then the environment variable.
pub open spec fn override_spec(
    fd: FieldDef,
    args: Seq<Seq<char>>,
    env: Seq<(Seq<char>, Seq<char>)>,
) -> Option<Node> {
    let c = match fd.arg_override {
        Some(f) => cli_override(args, f@),
        None => None,
    };
    match c {
        Some(s) => Some(Node::Scalar(s)),
        None => match fd.env_override {
            Some(nm) => match env_lookup(env, nm@) {
                Some(s) => Some(Node::Scalar(s)),
                None => None,
            },
            None => None,
        },
    }
}

/// The field's value in the merged section: an exact lookup, or the first
/// case-insensitive match when the field is so configured.
pub open spec fn config_hit_spec(fd: FieldDef, es: Seq<(Seq<char>, Node)>) -> Option<Node> {
    if fd.insensitive {
        lookup_ci(es, fd.key@)
    } else {
        lookup_in(es, fd.key@)
    }
}

/// How a conversion failure of a found value is reported: fields with a
/// default, nested structures and lists wrap the cause in a nested error
/// named after the field; scalar and optional fields report a type mismatch
/// carrying the field's key, its expected type and the offending value.
pub open spec fn tag_failure_spec(fd: FieldDef, v: Node, cause: ErrNode) -> ErrNode {
    if fd.default is Some {
        ErrNode::NestedError { section: fd.key@, source: Box::new(cause) }
    } else {
        match fd.ty {
            FieldTy::Struct(_) => ErrNode::NestedError {
                section: fd.key@,
                source: Box::new(cause),
            },
            FieldTy::List(_) => ErrNode::NestedError { section: fd.key@, source: Box::new(cause) },
            _ => ErrNode::TypeMismatch {
                field: fd.key@,
                expected: ty_name(fd.ty),
                found: Some(render_node(v)),
            },
        }
    }
}

/// What resolving one field yields, walking the override chain: an override
/// hit is authoritative; else the merged section is consulted; a found value
/// is converted, its failure tagged with the field; with nothing found, a
/// configured default applies after the whole section has been offered to
/// the type (which lets a nested structure's fields live as siblings of the
/// parent's); an optional field resolves to nothing; a nested structure
/// falls back to the whole section; and anything else is a missing required
/// field.
pub open spec fn resolve_field_spec(
    fd: FieldDef,
    es: Seq<(Seq<char>, Node)>,
    args: Seq<Seq<char>>,
    env: Seq<(Seq<char>, Seq<char>)>,
) -> Result<DynNode, ErrNode>
    decreases fd, 2int, 0int,
{
    let hit = match override_spec(fd, args, env) {
        Some(v) => Some(v),
        None => config_hit_spec(fd, es),
    };
    match hit {
        Some(v) => match convert_spec(fd.ty, v, args, env) {
            Ok(d) => Ok(d),
            Err(cause) => Err(tag_failure_spec(fd, v, cause)),
        },
        None => match fd.default {
            Some(d) => match convert_spec(fd.ty, Node::Section(es), args, env) {
                Ok(x) => Ok(x),
                Err(_) => Ok(d@),
            },
            None => if fd.optional {
                Ok(DynNode::Nothing)
            } else if fd.ty is Struct {
                match convert_spec(fd.ty, Node::Section(es), args, env) {
                    Ok(x) => Ok(x),
                    Err(e) => Err(ErrNode::NestedError { section: fd.key@, source: Box::new(e) }),
                }
            } else {
                Err(ErrNode::MissingField(fd.key@))
            },
        },
    }
}

/// The model of an optional typed default, nothing when none is configured.
pub open spec fn default_model(o: Option<DynValue>) -> DynNode {
    match o {
        Some(d) => d@,
        None => DynNode::Nothing,
    }
}

/// A section converts to no scalar, sequence, boolean, character or number:
/// offering the whole section to such a type always fails, which is what
/// makes the flat-nesting fallback reach only nested structures.
proof fn lemma_section_converts_only_to_structs(
    ty: FieldTy,
    es: Seq<(Seq<char>, Node)>,
    args: Seq<Seq<char>>,
    env: Seq<(Seq<char>, Seq<char>)>,
)
    requires
        !(ty is Struct),
        !(ty is Opt),
    ensures
        convert_spec(ty, Node::Section(es), args, env) is Err,
{
}

/// Override precedence: a command-line hit is authoritative — the field
/// resolves by converting exactly that token's value, and neither the
/// environment, nor the configuration tree, nor the default is consulted.
pub proof fn lemma_cli_override_wins(
    fd: FieldDef,
    es: Seq<(Seq<char>, Node)>,
    args: Seq<Seq<char>>,
    env: Seq<(Seq<char>, Seq<char>)>,
    s: Seq<char>,
)
    requires
        fd.arg_override matches Some(f) && cli_override(args, f@) == Some(s),
    ensures
        resolve_field_spec(fd, es, args, env) == (match convert_spec(
            fd.ty,
            Node::Scalar(s),
            args,
            env,
        ) {
            Ok(d) => Ok::<DynNode, ErrNode>(d),
            Err(c) => Err::<DynNode, ErrNode>(tag_failure_spec(fd, Node::Scalar(s), c)),
        }),
{
}

/// Configuration hit: with no override configured or set, a field found in
/// the merged tree resolves by converting exactly that value.
pub proof fn lemma_config_hit(
    fd: FieldDef,
    es: Seq<(Seq<char>, Node)>,
    args: Seq<Seq<char>>,
    env: Seq<(Seq<char>, Seq<char>)>,
    v: Node,
)
    requires
        override_spec(fd, args, env) is None,
        config_hit_spec(fd, es) == Some(v),
    ensures
        resolve_field_spec(fd, es, args, env) == (match convert_spec(fd.ty, v, args, env) {
            Ok(d) => Ok::<DynNode, ErrNode>(d),
            Err(c) => Err::<DynNode, ErrNode>(tag_failure_spec(fd, v, c)),
        }),
{
}

/// Default fallback: a field of plain type absent from every source
/// resolves to its configured default, exactly as configured and without
/// conversion.
pub proof fn lemma_default_fallback(
    fd: FieldDef,
    es: Seq<(Seq<char>, Node)>,
    args: Seq<Seq<char>>,
    env: Seq<(Seq<char>, Seq<char>)>,
)
    requires
        fd.default is Some,
        override_spec(fd, args, env) is None,
        config_hit_spec(fd, es) is None,
        !(fd.ty is Struct),
        !(fd.ty is Opt),
    ensures
        resolve_field_spec(fd, es, args, env) == Ok::<DynNode, ErrNode>(default_model(fd.default)),
{
    lemma_section_converts_only_to_structs(fd.ty, es, args, env);
}

/// Optional semantics, absence half: an optional field with no default,
/// absent from every source, resolves to nothing rather than an error.
pub proof fn lemma_optional_absent(
    fd: FieldDef,
    es: Seq<(Seq<char>, Node)>,
    args: Seq<Seq<char>>,
    env: Seq<(Seq<char>, Seq<char>)>,
)
    requires
        fd.optional,
        fd.default is None,
        override_spec(fd, args, env) is None,
        config_hit_spec(fd, es) is None,
    ensures
        resolve_field_spec(fd, es, args, env) == Ok::<DynNode, ErrNode>(DynNode::Nothing),
{
}

/// Optional conversion: a null leaf converts to nothing; a present value
/// converts by the inner type, with only a missing-field failure absorbed
/// into nothing — any other failure, a type mismatch on a value that was
/// present included, propagates unchanged.
pub proof fn lemma_optional_conversion(
    t: FieldTy,
    v: Node,
    args: Seq<Seq<char>>,
    env: Seq<(Seq<char>, Seq<char>)>,
)
    ensures
        v is Null ==> convert_spec(FieldTy::Opt(Box::new(t)), v, args, env) == Ok::<
            DynNode,
            ErrNode,
        >(DynNode::Nothing),
        !(v is Null) ==> convert_spec(FieldTy::Opt(Box::new(t)), v, args, env) == (match
            convert_spec(t, v, args, env) {
            Ok(d) => Ok::<DynNode, ErrNode>(d),
            Err(e) => if e is MissingField {
                Ok::<DynNode, ErrNode>(DynNode::Nothing)
            } else {
                Err::<DynNode, ErrNode>(e)
            },
        }),
{
}

/// Missing required field: a non-optional field of plain type with no
/// default, absent from every source, fails with exactly the missing-field
/// error, whose message names the key.
pub proof fn lemma_missing_required(
    fd: FieldDef,
    es: Seq<(Seq<char>, Node)>,
    args: Seq<Seq<char>>,
    env: Seq<(Seq<char>, Seq<char>)>,
)
    requires
        fd.default is None,
        !fd.optional,
        !(fd.ty is Struct),
        override_spec(fd, args, env) is None,
        config_hit_spec(fd, es) is None,
    ensures
        resolve_field_spec(fd, es, args, env) == Err::<DynNode, ErrNode>(
            ErrNode::MissingField(fd.key@),
        ),
        crate::parser::err_message(ErrNode::MissingField(fd.key@)) == "Missing required field: "@
            + fd.key@,
{
}

/// Nested-structure flattening: a nested-structure field whose key is
/// absent resolves its own fields against the whole remaining section, so a
/// nested structure's fields can live as siblings of the parent's.
pub proof fn lemma_flat_nesting(
    fd: FieldDef,
    es: Seq<(Seq<char>, Node)>,
    args: Seq<Seq<char>>,
    env: Seq<(Seq<char>, Seq<char>)>,
)
    requires
        fd.ty is Struct,
        fd.default is None,
        !fd.optional,
        override_spec(fd, args, env) is None,
        config_hit_spec(fd, es) is None,
    ensures
        resolve_field_spec(fd, es, args, env) == (match convert_spec(
            fd.ty,
            Node::Section(es),
            args,
            env,
        ) {
            Ok(x) => Ok::<DynNode, ErrNode>(x),
            Err(e) => Err::<DynNode, ErrNode>(
                ErrNode::NestedError { section: fd.key@, source: Box::new(e) },
            ),
        }),
{
}

/// The model of a conversion or resolution outcome.
pub open spec fn res_model(r: Result<DynValue, ParserError>) -> Result<DynNode, ErrNode> {
    match r {
        Ok(d) => Ok(d@),
        Err(e) => Err(e@),
    }
}

/// The value of the first `--flag=value` token of the argument list.
#[verifier::loop_isolation(false)]
pub fn find_cli(args: &Vec<String>, flag: &str) -> (r: Option<String>)
    ensures
        match r {
            Some(v) => cli_override(crate::cli::args_model(args@), flag@) == Some(v@),
            None => cli_override(crate::cli::args_model(args@), flag@) is None,
        },
{
    let ghost am = crate::cli::args_model(args@);
    let mut pref = "--".to_owned();
    pref.append(flag);
    pref.append("=");
    let ghost gp = "--"@ + flag@ + "="@;
    proof {
        assert(pref@ == gp);
        assert(am.skip(0) =~= am);
    }
    let plen = pref.unicode_len();
    let n = args.len();
    for i in 0..n
        invariant
            n == args@.len(),
            plen == gp.len(),
            pref@ == gp,
            cli_override(am, flag@) == cli_override(am.skip(i as int), flag@),
    {
        proof {
            assert(am.skip(i as int)[0] == am[i as int]);
            assert(am.skip(i as int).drop_first() =~= am.skip(i as int + 1));
        }
        let arg: &str = args[i].as_str();
        if crate::text::str_has_prefix(arg, pref.as_str()) {
            let alen = arg.unicode_len();
            let v = arg.substring_char(plen, alen).to_owned();
            proof {
                assert(v@ =~= am[i as int].skip(gp.len() as int));
            }
            return Some(v);
        }
    }
    proof {
        assert(am.skip(n as int).len() == 0);
    }
    None
}

/// The first binding of `name` in the environment list.
#[verifier::loop_isolation(false)]
pub fn find_env(env: &Vec<(String, String)>, name: &str) -> (r: Option<String>)
    ensures
        match r {
            Some(v) => env_lookup(env_model(env@), name@) == Some(v@),
            None => env_lookup(env_model(env@), name@) is None,
        },
{
    let ghost em = env_model(env@);
    proof {
        assert(em.skip(0) =~= em);
    }
    let n = env.len();
    for i in 0..n
        invariant
            n == env@.len(),
            env_lookup(em, name@) == env_lookup(em.skip(i as int), name@),
    {
        proof {
            assert(em.skip(i as int)[0] == em[i as int]);
            assert(em.skip(i as int).drop_first() =~= em.skip(i as int + 1));
        }
        if crate::text::str_eq(env[i].0.as_str(), name) {
            return Some(env[i].1.clone());
        }
    }
    proof {
        assert(em.skip(n as int).len() == 0);
    }
    None
}

/// Build the mismatch a failed conversion reports.
fn mismatch_exec(ty: &FieldTy, v: &ConfigValue) -> (r: ParserError)
    ensures
        r@ == mismatch_err(*ty, v@),
{
    ParserError::TypeMismatch {
        field: "".to_owned(),
        expected: ty_name_of(ty),
        found: Some(render(v)),
    }
}

/// Convert one tree into a typed value; see [`convert_spec`] for the exact
/// outcome on every input.
#[verifier::rlimit(50)]
pub fn convert(
    ty: &FieldTy,
    v: &ConfigValue,
    args: &Vec<String>,
    env: &Vec<(String, String)>,
) -> (r: Result<DynValue, ParserError>)
    ensures
        res_model(r) == convert_spec(*ty, v@, crate::cli::args_model(args@), env_model(env@)),
    decreases *ty, 0int, 0int,
{
    match ty {
        FieldTy::Bool => {
            return match v {
                ConfigValue::Value(s) => match crate::scalars::parse_bool(s.as_str()) {
                    Some(b) => Ok(DynValue::Bool(b)),
                    None => Err(mismatch_exec(ty, v)),
                },
                _ => Err(mismatch_exec(ty, v)),
            };
        },
        FieldTy::Char => {
            // A character bound out of an `Option` match loses facts here, so
            // the single character is read back directly.
            return match v {
                ConfigValue::Value(s) => {
                    if s.as_str().unicode_len() == 1 {
                        let c = s.as_str().get_char(0);
                        proof {
                            assert(crate::scalars::parse_char_spec(s@) == Some(c));
                        }
                        Ok(DynValue::Char(c))
                    } else {
                        proof {
                            assert(crate::scalars::parse_char_spec(s@) is None);
                        }
                        Err(mismatch_exec(ty, v))
                    }
                },
                _ => Err(mismatch_exec(ty, v)),
            };
        },
        FieldTy::U8 => {
            return convert_uint(ty, v, u8::MAX as u64);
        },
        FieldTy::U16 => {
            return convert_uint(ty, v, u16::MAX as u64);
        },
        FieldTy::U32 => {
            return convert_uint(ty, v, u32::MAX as u64);
        },
        FieldTy::U64 => {
            return convert_uint(ty, v, u64::MAX);
        },
        FieldTy::I8 => {
            return convert_int(ty, v, i8::MIN as i64, i8::MAX as i64);
        },
        FieldTy::I16 => {
            return convert_int(ty, v, i16::MIN as i64, i16::MAX as i64);
        },
        FieldTy::I32 => {
            return convert_int(ty, v, i32::MIN as i64, i32::MAX as i64);
        },
        FieldTy::I64 => {
            return convert_int(ty, v, i64::MIN, i64::MAX);
        },
        FieldTy::Str => {
            return match v {
                ConfigValue::Value(s) => Ok(DynValue::Str(s.clone())),
                _ => Err(mismatch_exec(ty, v)),
            };
        },
        FieldTy::List(t) => match v {
            ConfigValue::Array(items) => {
                proof {
                    assert(decreases_to!(*ty => *t));
                }
                match convert_list(&**t, items, args, env, 0) {
                    Ok(ds) => Ok(DynValue::List(ds)),
                    Err(e) => Err(e),
                }
            },
            _ => Err(mismatch_exec(ty, v)),
        },
        FieldTy::Opt(t) => match v {
            ConfigValue::Null => Ok(DynValue::Nothing),
            _ => match convert(&**t, v, args, env) {
                Ok(d) => Ok(d),
                Err(e) => {
                    if matches!(e, ParserError::MissingField(_)) {
                        Ok(DynValue::Nothing)
                    } else {
                        Err(e)
                    }
                },
            },
        },
        FieldTy::Struct(st) => match v {
            ConfigValue::Section(es) => resolve_struct(st, es, args, env),
            _ => Err(
                ParserError::TypeMismatch {
                    field: "root".to_owned(),
                    expected: "section".to_owned(),
                    found: None,
                },
            ),
        },
    }
}

/// Convert an unsigned scalar with ceiling `max`.
fn convert_uint(ty: &FieldTy, v: &ConfigValue, max: u64) -> (r: Result<DynValue, ParserError>)
    ensures
        res_model(r) == uint_convert_spec(*ty, v@, max),
{
    match v {
        ConfigValue::Value(s) => match crate::scalars::parse_u64(s.as_str()) {
            Some(n) => {
                if n <= max {
                    Ok(DynValue::UInt(n))
                } else {
                    Err(mismatch_exec(ty, v))
                }
            },
            None => Err(mismatch_exec(ty, v)),
        },
        _ => Err(mismatch_exec(ty, v)),
    }
}

/// Convert a signed scalar with range `min ..= max`.
fn convert_int(ty: &FieldTy, v: &ConfigValue, min: i64, max: i64) -> (r: Result<
    DynValue,
    ParserError,
>)
    ensures
        res_model(r) == int_convert_spec(*ty, v@, min, max),
{
    match v {
        ConfigValue::Value(s) => match crate::scalars::parse_i64(s.as_str()) {
            Some(n) => {
                if min <= n && n <= max {
                    Ok(DynValue::Int(n))
                } else {
                    Err(mismatch_exec(ty, v))
                }
            },
            None => Err(mismatch_exec(ty, v)),
        },
        _ => Err(mismatch_exec(ty, v)),
    }
}

/// Convert the elements from index `from` on.
fn convert_list(
    t: &FieldTy,
    items: &Vec<ConfigValue>,
    args: &Vec<String>,
    env: &Vec<(String, String)>,
    from: usize,
) -> (r: Result<Vec<DynValue>, ParserError>)
    requires
        from <= items@.len(),
    ensures
        ({
            let s = convert_list_spec(
                *t,
                crate::value::items_model(items@),
                crate::cli::args_model(args@),
                env_model(env@),
                from as int,
            );
            match r {
                Ok(vs) => s == Ok::<Seq<DynNode>, ErrNode>(dyn_items_model(vs@)),
                Err(e) => s == Err::<Seq<DynNode>, ErrNode>(e@),
            }
        }),
    decreases *t, 1int, items@.len() - from,
{
    let ghost m = crate::value::items_model(items@);
    let n = items.len();
    if from == n {
        let out: Vec<DynValue> = Vec::new();
        proof {
            assert(dyn_items_model(out@) =~= Seq::<DynNode>::empty());
        }
        return Ok(out);
    }
    proof {
        assert(decreases_to!(*items => items@));
        assert(decreases_to!(items@ => items@[from as int]));
        assert(m[from as int] == items@[from as int]@);
    }
    match convert(t, &items[from], args, env) {
        Err(e) => {
            let mut sec = "[".to_owned();
            let num = crate::scalars::u64_to_string(from as u64);
            sec.append(num.as_str());
            sec.append("]");
            proof {
                assert(sec@ == "["@ + dec_str(from as nat) + "]"@);
            }
            Err(ParserError::NestedError { section: sec, source: Box::new(e) })
        },
        Ok(d) => match convert_list(t, items, args, env, from + 1) {
            Err(e) => Err(e),
            Ok(rest) => {
                let ghost rest_old = rest@;
                let mut rest = rest;
                rest.insert(0, d);
                proof {
                    assert(dyn_items_model(rest@) =~= seq![d@] + dyn_items_model(rest_old));
                }
                Ok(rest)
            },
        },
    }
}

/// Resolve every described field of a structure against a section's
/// entries; the first error aborts and no partial structure is returned.
pub fn resolve_struct(
    st: &StructTy,
    es: &Vec<(String, ConfigValue)>,
    args: &Vec<String>,
    env: &Vec<(String, String)>,
) -> (r: Result<DynValue, ParserError>)
    ensures
        res_model(r) == struct_convert_spec(
            *st,
            entries_model(es@),
            crate::cli::args_model(args@),
            env_model(env@),
        ),
    decreases *st, 0int, 0int,
{
    proof {
        assert(decreases_to!(*st => st.fields));
        assert(st.fields@.skip(0) =~= st.fields@);
    }
    match resolve_fields(&st.fields, 0, es, args, env) {
        Ok(list) => Ok(DynValue::Struct(list)),
        Err(e) => Err(e),
    }
}

/// Resolve the fields from index `from` on, in order.
fn resolve_fields(
    fds: &Vec<FieldDef>,
    from: usize,
    es: &Vec<(String, ConfigValue)>,
    args: &Vec<String>,
    env: &Vec<(String, String)>,
) -> (r: Result<Vec<(String, DynValue)>, ParserError>)
    requires
        from <= fds@.len(),
    ensures
        ({
            let s = resolve_fields_spec(
                fds@.skip(from as int),
                entries_model(es@),
                crate::cli::args_model(args@),
                env_model(env@),
            );
            match r {
                Ok(list) => s == Ok::<Seq<(Seq<char>, DynNode)>, ErrNode>(
                    dyn_entries_model(list@),
                ),
                Err(e) => s == Err::<Seq<(Seq<char>, DynNode)>, ErrNode>(e@),
            }
        }),
    decreases *fds, 1int, fds@.len() - from,
{
    let n = fds.len();
    if from == n {
        let out: Vec<(String, DynValue)> = Vec::new();
        proof {
            assert(fds@.skip(from as int).len() == 0);
            assert(dyn_entries_model(out@) =~= Seq::<(Seq<char>, DynNode)>::empty());
        }
        return Ok(out);
    }
    proof {
        assert(decreases_to!(*fds => fds@));
        assert(decreases_to!(fds@ => fds@[from as int]));
        assert(fds@.skip(from as int)[0] == fds@[from as int]);
        assert(fds@.skip(from as int).drop_first() =~= fds@.skip(from as int + 1));
    }
    match resolve_field(&fds[from], es, args, env) {
        Err(e) => Err(e),
        Ok(d) => match resolve_fields(fds, from + 1, es, args, env) {
            Err(e) => Err(e),
            Ok(rest) => {
                let ghost rest_old = rest@;
                let mut rest = rest;
                let key = fds[from].key.clone();
                rest.insert(0, (key, d));
                proof {
                    assert(dyn_entries_model(rest@) =~= seq![
                        (fds@[from as int].key@, d@),
                    ] + dyn_entries_model(rest_old));
                }
                Ok(rest)
            },
        },
    }
}

/// Build the error a failed conversion of a found value is reported as.
fn tag_failure(fd: &FieldDef, v: &ConfigValue, cause: ParserError) -> (r: ParserError)
    ensures
        r@ == tag_failure_spec(*fd, v@, cause@),
{
    let wrap = match &fd.default {
        Some(_) => true,
        None => match &fd.ty {
            FieldTy::Struct(_) => true,
            FieldTy::List(_) => true,
            _ => false,
        },
    };
    if wrap {
        ParserError::NestedError { section: fd.key.clone(), source: Box::new(cause) }
    } else {
        ParserError::TypeMismatch {
            field: fd.key.clone(),
            expected: ty_name_of(&fd.ty),
            found: Some(render(v)),
        }
    }
}

/// Resolve one described field against a section's entries, walking the
/// override chain; see [`resolve_field_spec`] for the exact outcome on
/// every input.
pub fn resolve_field(
    fd: &FieldDef,
    es: &Vec<(String, ConfigValue)>,
    args: &Vec<String>,
    env: &Vec<(String, String)>,
) -> (r: Result<DynValue, ParserError>)
    ensures
        res_model(r) == resolve_field_spec(
            *fd,
            entries_model(es@),
            crate::cli::args_model(args@),
            env_model(env@),
        ),
    decreases *fd, 2int, 0int,
{
    // The override chain: the command-line flag, then the environment.
    let mut over: Option<String> = None;
    if let Some(flag) = &fd.arg_override {
        over = find_cli(args, flag.as_str());
    }
    if over.is_none() {
        if let Some(nm) = &fd.env_override {
            over = find_env(env, nm.as_str());
        }
    }
    if let Some(s) = over {
        let v = ConfigValue::Value(s);
        proof {
            assert(override_spec(
                *fd,
                crate::cli::args_model(args@),
                env_model(env@),
            ) == Some(v@));
            assert(decreases_to!(*fd => fd.ty));
        }
        return match convert(&fd.ty, &v, args, env) {
            Ok(d) => Ok(d),
            Err(cause) => Err(tag_failure(fd, &v, cause)),
        };
    }
    proof {
        assert(override_spec(*fd, crate::cli::args_model(args@), env_model(env@)) is None);
    }
    // The merged configuration tree.
    let cfg: Option<&ConfigValue> = if fd.insensitive {
        crate::value::section_get_ci(es, fd.key.as_str())
    } else {
        crate::value::section_get(es, fd.key.as_str())
    };
    match cfg {
        Some(v) => {
            proof {
                assert(decreases_to!(*fd => fd.ty));
            }
            match convert(&fd.ty, v, args, env) {
                Ok(d) => Ok(d),
                Err(cause) => Err(tag_failure(fd, v, cause)),
            }
        },
        None => match &fd.default {
            Some(d) => match convert_whole_section(&fd.ty, es, args, env) {
                Ok(x) => Ok(x),
                Err(_) => Ok(d.duplicate()),
            },
            None => {
                if fd.optional {
                    Ok(DynValue::Nothing)
                } else if matches!(&fd.ty, FieldTy::Struct(_)) {
                    match convert_whole_section(&fd.ty, es, args, env) {
                        Ok(x) => Ok(x),
                        Err(e) => Err(
                            ParserError::NestedError {
                                section: fd.key.clone(),
                                source: Box::new(e),
                            },
                        ),
                    }
                } else {
                    Err(ParserError::MissingField(fd.key.clone()))
                }
            },
        },
    }
}

/// Convert the whole section as if it were the field's own value, which
/// lets a nested structure's fields live as siblings of the parent's.
fn convert_whole_section(
    ty: &FieldTy,
    es: &Vec<(String, ConfigValue)>,
    args: &Vec<String>,
    env: &Vec<(String, String)>,
) -> (r: Result<DynValue, ParserError>)
    ensures
        res_model(r) == convert_spec(
            *ty,
            Node::Section(entries_model(es@)),
            crate::cli::args_model(args@),
            env_model(env@),
        ),
    decreases *ty, 1int, 0int,
{
    match ty {
        FieldTy::Struct(st) => {
            proof {
                assert(decreases_to!(*ty => *st));
            }
            resolve_struct(st, es, args, env)
        },
        FieldTy::Opt(t) => {
            match convert_whole_section(&**t, es, args, env) {
                Ok(d) => Ok(d),
                Err(e) => {
                    if matches!(e, ParserError::MissingField(_)) {
                        Ok(DynValue::Nothing)
                    } else {
                        Err(e)
                    }
                },
            }
        },
        _ => {
            let mut found = "{".to_owned();
            let body = render_entries_from(es, 0);
            found.append(body.as_str());
            found.append("}");
            proof {
                assert(entries_model(es@).skip(0) =~= entries_model(es@));
                assert(found@ == render_node(Node::Section(entries_model(es@))));
            }
            let e = ParserError::TypeMismatch {
                field: "".to_owned(),
                expected: ty_name_of(ty),
                found: Some(found),
            };
            proof {
                assert(e@ == mismatch_err(*ty, Node::Section(entries_model(es@))));
            }
            Err(e)
        },
    }
}

/// Resolve a whole described structure from a configuration tree, which
/// must be a section, consulting the given command-line tokens and
/// environment bindings; see [`convert_spec`] for the exact outcome on
/// every input.
pub fn load_struct(
    st: &StructTy,
    config: &ConfigValue,
    args: &Vec<String>,
    env: &Vec<(String, String)>,
) -> (r: Result<DynValue, ParserError>)
    ensures
        res_model(r) == convert_spec(
            FieldTy::Struct(*st),
            config@,
            crate::cli::args_model(args@),
            env_model(env@),
        ),
{
    match config {
        ConfigValue::Section(es) => resolve_struct(st, es, args, env),
        _ => Err(
            ParserError::TypeMismatch {
                field: "root".to_owned(),
                expected: "section".to_owned(),
                found: None,
            },
        ),
    }
}

} // verus!
