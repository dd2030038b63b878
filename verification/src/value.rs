//! The value tree: every configuration source is normalized into this
//! recursive data model before merging and resolution.
//!
//! A `Section` keeps its entries as a vector of key/value pairs whose keys
//! are unique; the order of entries carries no meaning for lookup, but it is
//! kept deterministic so that merging is reproducible.

use vstd::prelude::*;

verus! {

broadcast use vstd::std_specs::vec::axiom_vec_decreases_to_view;

/// A single node of the configuration tree.
///
/// Scalars hold the canonical string form of the source value (integers in
/// base ten, booleans as `true`/`false`); typed interpretation happens at
/// resolution time, not at parse time.
#[derive(Debug, PartialEq, Eq)]
pub enum ConfigValue {
    /// A scalar leaf, stored as its canonical string form.
    Value(String),
    /// A mapping from keys to subtrees; keys are unique.
    Section(Vec<(String, ConfigValue)>),
    /// An ordered list of subtrees.
    Array(Vec<ConfigValue>),
    /// An explicit null / absent leaf.
    Null,
}

/// The mathematical model of a configuration tree.
pub enum Node {
    Scalar(Seq<char>),
    Section(Seq<(Seq<char>, Node)>),
    Sequence(Seq<Node>),
    Null,
}

/// The model of a vector of section entries.
pub open spec fn entries_model(es: Seq<(String, ConfigValue)>) -> Seq<(Seq<char>, Node)>
    decreases es,
{
    Seq::new(
        es.len(),
        |i: int|
            if 0 <= i < es.len() {
                (es[i].0@, es[i].1.model())
            } else {
                (Seq::empty(), Node::Null)
            },
    )
}

/// The model of a vector of subtrees.
pub open spec fn items_model(items: Seq<ConfigValue>) -> Seq<Node>
    decreases items,
{
    Seq::new(
        items.len(),
        |i: int| if 0 <= i < items.len() {
            items[i].model()
        } else {
            Node::Null
        },
    )
}

impl ConfigValue {
    /// The model of this tree: the same shape with strings and vectors
    /// abstracted to sequences.
    pub open spec fn model(self) -> Node
        decreases self,
    {
        match self {
            ConfigValue::Value(s) => Node::Scalar(s@),
            ConfigValue::Section(es) => Node::Section(entries_model(es@)),
            ConfigValue::Array(items) => Node::Sequence(items_model(items@)),
            ConfigValue::Null => Node::Null,
        }
    }
}

impl View for ConfigValue {
    type V = Node;

    open spec fn view(&self) -> Node {
        self.model()
    }
}

/// The value bound to `k` among the entries `es`: the first entry whose key
/// equals `k`, if any. With unique keys it is the only one.
pub open spec fn lookup_in(es: Seq<(Seq<char>, Node)>, k: Seq<char>) -> Option<Node>
    decreases es.len(),
{
    if es.len() == 0 {
        None
    } else if es[0].0 == k {
        Some(es[0].1)
    } else {
        lookup_in(es.drop_first(), k)
    }
}

/// Whether some entry of `es` has key `k`.
pub open spec fn has_key(es: Seq<(Seq<char>, Node)>, k: Seq<char>) -> bool {
    lookup_in(es, k) is Some
}

/// No two entries of `es` share a key.
pub open spec fn keys_unique(es: Seq<(Seq<char>, Node)>) -> bool {
    forall|i: int, j: int| 0 <= i < j < es.len() ==> es[i].0 != es[j].0
}

/// Well-formedness of a tree: every section, at every depth, has unique keys.
pub open spec fn node_wf(n: Node) -> bool
    decreases n,
{
    match n {
        Node::Scalar(_) => true,
        Node::Null => true,
        Node::Sequence(items) => forall|i: int|
            0 <= i < items.len() ==> node_wf(#[trigger] items[i]),
        Node::Section(es) => keys_unique(es) && forall|i: int|
            0 <= i < es.len() ==> node_wf(#[trigger] es[i].1),
    }
}

impl ConfigValue {
    /// Well-formedness of the concrete tree.
    pub open spec fn wf(self) -> bool {
        node_wf(self@)
    }
}

/// Exact lookup of `key` among the entries of a section, first match.
pub fn section_get<'a>(es: &'a Vec<(String, ConfigValue)>, key: &str) -> (r: Option<
    &'a ConfigValue,
>)
    ensures
        match r {
            Some(v) => lookup_in(entries_model(es@), key@) == Some(v@),
            None => !has_key(entries_model(es@), key@),
        },
{
    let ghost ms = entries_model(es@);
    let n = es.len();
    proof {
        assert(ms.skip(0) =~= ms);
    }
    for i in 0..n
        invariant
            n == es.len(),
            ms == entries_model(es@),
            forall|j: int| 0 <= j < i ==> ms[j].0 != key@,
            lookup_in(ms, key@) == lookup_in(ms.skip(i as int), key@),
    {
        proof {
            lemma_lookup_skip_step(ms, key@, i as int);
        }
        if crate::text::str_eq(es[i].0.as_str(), key) {
            proof {
                assert(ms.skip(i as int)[0] == ms[i as int]);
            }
            return Some(&es[i].1);
        }
        proof {
            assert(ms.skip(i as int)[0] == ms[i as int]);
            assert(ms.skip(i as int).drop_first() =~= ms.skip(i as int + 1));
        }
    }
    proof {
        assert(ms.skip(n as int).len() == 0);
    }
    None
}

/// The value bound to `k` among the entries `es`, compared without regard to
/// ASCII case: the first entry whose lowered key equals the lowered `k`.
pub open spec fn lookup_ci(es: Seq<(Seq<char>, Node)>, k: Seq<char>) -> Option<Node>
    decreases es.len(),
{
    if es.len() == 0 {
        None
    } else if crate::text::lower_seq(es[0].0) == crate::text::lower_seq(k) {
        Some(es[0].1)
    } else {
        lookup_ci(es.drop_first(), k)
    }
}

/// Case-insensitive lookup of `key` among the entries of a section, first
/// match in entry order.
pub fn section_get_ci<'a>(es: &'a Vec<(String, ConfigValue)>, key: &str) -> (r: Option<
    &'a ConfigValue,
>)
    ensures
        match r {
            Some(v) => lookup_ci(entries_model(es@), key@) == Some(v@),
            None => lookup_ci(entries_model(es@), key@) is None,
        },
{
    let ghost ms = entries_model(es@);
    let n = es.len();
    proof {
        assert(ms.skip(0) =~= ms);
    }
    for i in 0..n
        invariant
            n == es.len(),
            ms == entries_model(es@),
            lookup_ci(ms, key@) == lookup_ci(ms.skip(i as int), key@),
    {
        proof {
            assert(ms.skip(i as int)[0] == ms[i as int]);
            assert(ms.skip(i as int).drop_first() =~= ms.skip(i as int + 1));
        }
        if crate::text::str_eq_ignore_ascii_case(es[i].0.as_str(), key) {
            return Some(&es[i].1);
        }
    }
    proof {
        assert(ms.skip(n as int).len() == 0);
    }
    None
}

/// Case-insensitive lookup is indifferent to the ASCII case of the key: two
/// keys that lower to the same characters find the same entry.
pub proof fn lemma_lookup_ci_case(es: Seq<(Seq<char>, Node)>, k1: Seq<char>, k2: Seq<char>)
    requires
        crate::text::lower_seq(k1) == crate::text::lower_seq(k2),
    ensures
        lookup_ci(es, k1) == lookup_ci(es, k2),
    decreases es.len(),
{
    if es.len() > 0 {
        lemma_lookup_ci_case(es.drop_first(), k1, k2);
    }
}

proof fn lemma_lookup_skip_step(ms: Seq<(Seq<char>, Node)>, k: Seq<char>, i: int)
    requires
        0 <= i < ms.len(),
    ensures
        ms.skip(i)[0] == ms[i],
        ms.skip(i).drop_first() =~= ms.skip(i + 1),
        ms.skip(i)[0].0 == k ==> lookup_in(ms.skip(i), k) == Some(ms[i].1),
        ms.skip(i)[0].0 != k ==> lookup_in(ms.skip(i), k) == lookup_in(ms.skip(i + 1), k),
{
    assert(ms.skip(i)[0] == ms[i]);
    assert(ms.skip(i).drop_first() =~= ms.skip(i + 1));
}

} // verus!
