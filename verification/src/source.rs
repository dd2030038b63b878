//! The merge engine and the source aggregator.
//!
//! Two trees merge key-wise: where both sides bind a key to a section the
//! sections merge recursively, in every other conflict the incoming side
//! wins outright; sequences are replaced wholesale, never concatenated.
//!
//! Sources carry a priority. A numerically smaller priority confers higher
//! effective precedence: the aggregator stable-sorts sources by priority
//! descending and folds them through the merge, so the smallest priority is
//! merged last and overrides the rest.

use vstd::prelude::*;

use crate::parser::{ErrNode, ParserError};
use crate::value::{
    ConfigValue,
    Node,
    entries_model,
    has_key,
    keys_unique,
    lookup_in,
    node_wf,
};

verus! {

broadcast use vstd::std_specs::vec::axiom_vec_decreases_to_view;

/// `es` with its first entry keyed `k` replaced by `(k, v)`, in place; when
/// no entry has key `k`, `(k, v)` is appended.
pub open spec fn upsert(es: Seq<(Seq<char>, Node)>, k: Seq<char>, v: Node) -> Seq<
    (Seq<char>, Node),
>
    decreases es.len(),
{
    if es.len() == 0 {
        seq![(k, v)]
    } else if es[0].0 == k {
        seq![(k, v)] + es.drop_first()
    } else {
        seq![es[0]] + upsert(es.drop_first(), k, v)
    }
}

/// One step of the section merge: fold the incoming entry `(k, v)` into the
/// accumulated entries `bs`.
pub open spec fn merge_step(bs: Seq<(Seq<char>, Node)>, k: Seq<char>, v: Node) -> Seq<
    (Seq<char>, Node),
>
    decreases v, 1int,
{
    match lookup_in(bs, k) {
        Some(b0) => upsert(bs, k, merge_node(b0, v)),
        None => bs.push((k, v)),
    }
}

/// Merge the entries of two sections: the incoming entries `hs` are folded
/// into the base entries `bs`, left to right.
pub open spec fn merge_entries(bs: Seq<(Seq<char>, Node)>, hs: Seq<(Seq<char>, Node)>) -> Seq<
    (Seq<char>, Node),
>
    decreases hs, 2int,
{
    if hs.len() == 0 {
        bs
    } else {
        merge_entries(merge_step(bs, hs[0].0, hs[0].1), hs.drop_first())
    }
}

/// Merge two trees: two sections merge key-wise, any other pairing yields
/// the incoming tree unchanged. Deterministic and total: merging never
/// fails.
pub open spec fn merge_node(base: Node, high: Node) -> Node
    decreases high, 0int,
{
    match (base, high) {
        (Node::Section(bs), Node::Section(hs)) => Node::Section(merge_entries(bs, hs)),
        (_, h) => h,
    }
}

/// Lookup finds the first match: at an index whose key is first.
pub proof fn lemma_lookup_first_match(ms: Seq<(Seq<char>, Node)>, k: Seq<char>, i: int)
    requires
        0 <= i < ms.len(),
        ms[i].0 == k,
        forall|j: int| 0 <= j < i ==> ms[j].0 != k,
    ensures
        lookup_in(ms, k) == Some(ms[i].1),
    decreases i,
{
    if i > 0 {
        lemma_lookup_first_match(ms.drop_first(), k, i - 1);
    }
}

/// Lookup misses when no entry has the key.
pub proof fn lemma_lookup_no_match(ms: Seq<(Seq<char>, Node)>, k: Seq<char>)
    requires
        forall|j: int| 0 <= j < ms.len() ==> ms[j].0 != k,
    ensures
        lookup_in(ms, k) is None,
    decreases ms.len(),
{
    if ms.len() > 0 {
        lemma_lookup_no_match(ms.drop_first(), k);
    }
}

/// When the first entry keyed `k` stands at index `i`, upserting `(k, v)`
/// is updating that index.
pub proof fn lemma_upsert_at(ms: Seq<(Seq<char>, Node)>, k: Seq<char>, v: Node, i: int)
    requires
        0 <= i < ms.len(),
        ms[i].0 == k,
        forall|j: int| 0 <= j < i ==> ms[j].0 != k,
    ensures
        upsert(ms, k, v) =~= ms.update(i, (k, v)),
    decreases i,
{
    if i == 0 {
        assert(upsert(ms, k, v) =~= seq![(k, v)] + ms.drop_first());
        assert(seq![(k, v)] + ms.drop_first() =~= ms.update(0, (k, v)));
    } else {
        lemma_upsert_at(ms.drop_first(), k, v, i - 1);
        assert(seq![ms[0]] + ms.drop_first().update(i - 1, (k, v)) =~= ms.update(i, (k, v)));
    }
}

/// The position of the first entry of `es` whose key is `key`.
pub fn key_position(es: &Vec<(String, ConfigValue)>, key: &str) -> (r: Option<usize>)
    ensures
        match r {
            Some(i) => i < es@.len() && es@[i as int].0@ == key@ && forall|j: int|
                0 <= j < i ==> es@[j].0@ != key@,
            None => forall|j: int| 0 <= j < es@.len() ==> es@[j].0@ != key@,
        },
{
    let n = es.len();
    for i in 0..n
        invariant
            n == es@.len(),
            forall|j: int| 0 <= j < i ==> es@[j].0@ != key@,
    {
        if crate::text::str_eq(es[i].0.as_str(), key) {
            return Some(i);
        }
    }
    None
}

/// Merge two sections' entries, `high` taking precedence: keys present in
/// only one side pass through, keys present in both merge recursively when
/// both values are sections and otherwise take `high`'s value.
#[verifier::loop_isolation(false)]
pub fn merge_sections(base: Vec<(String, ConfigValue)>, high: Vec<(String, ConfigValue)>) -> (r:
    Vec<(String, ConfigValue)>)
    ensures
        entries_model(r@) == merge_entries(entries_model(base@), entries_model(high@)),
    decreases high,
{
    let ghost high0 = high;
    let ghost bs0 = entries_model(base@);
    let ghost hs0 = entries_model(high0@);
    let mut out = base;
    let mut rest = high;
    let ghost mut p: int = 0;
    while rest.len() > 0
        invariant
            0 <= p <= high0@.len(),
            rest@ =~= high0@.skip(p),
            merge_entries(bs0, hs0) == merge_entries(
                entries_model(out@),
                entries_model(rest@),
            ),
        decreases rest@.len(),
    {
        let ghost out_old = out@;
        let ghost rest_old = rest@;
        let (k, vh) = rest.remove(0);
        proof {
            assert(rest@ =~= rest_old.drop_first());
            assert(rest@ =~= high0@.skip(p + 1));
            assert(entries_model(rest@) =~= entries_model(rest_old).drop_first());
            assert(entries_model(rest_old)[0] == (k@, vh@));
            assert((k, vh) == high0@[p]);
        }
        let pos = key_position(&out, k.as_str());
        match pos {
            Some(i) => {
                let ghost ms = entries_model(out_old);
                proof {
                    lemma_lookup_first_match(ms, k@, i as int);
                }
                let (_k0, bv) = out.remove(i);
                let ghost mid = out@;
                let merged = match (bv, vh) {
                    (ConfigValue::Section(bsub), ConfigValue::Section(hsub)) => {
                        proof {
                            assert(decreases_to!(high0 => high0@));
                            assert(decreases_to!(high0@ => high0@[p]));
                            assert(decreases_to!(high0@[p] => high0@[p].1));
                            assert(high0@[p].1 == ConfigValue::Section(hsub));
                            assert(decreases_to!(ConfigValue::Section(hsub) => hsub));
                            assert(decreases_to!(high0 => hsub));
                        }
                        ConfigValue::Section(merge_sections(bsub, hsub))
                    },
                    (b_other, h_other) => {
                        proof {
                            assert(merge_node(b_other@, h_other@) == h_other@);
                        }
                        h_other
                    },
                };
                proof {
                    assert(merged@ == merge_node(ms[i as int].1, vh@));
                }
                out.insert(i, (k, merged));
                proof {
                    assert(out@ =~= out_old.update(i as int, (k, merged)));
                    assert(entries_model(out@) =~= ms.update(i as int, (k@, merged@)));
                    lemma_upsert_at(ms, k@, merged@, i as int);
                    assert(entries_model(out@) =~= upsert(ms, k@, merged@));
                    assert(merge_step(ms, k@, vh@) == upsert(ms, k@, merge_node(ms[i as int].1, vh@)));
                }
            },
            None => {
                let ghost ms = entries_model(out_old);
                proof {
                    lemma_lookup_no_match(ms, k@);
                }
                out.push((k, vh));
                proof {
                    assert(entries_model(out@) =~= ms.push((k@, vh@)));
                    assert(merge_step(ms, k@, vh@) == ms.push((k@, vh@)));
                }
            },
        }
        proof {
            p = p + 1;
            assert(merge_entries(entries_model(out_old), entries_model(rest_old))
                == merge_entries(merge_step(entries_model(out_old), k@, vh@),
                    entries_model(rest_old).drop_first()));
        }
    }
    proof {
        assert(entries_model(rest@).len() == 0);
        assert(merge_entries(entries_model(out@), entries_model(rest@)) == entries_model(out@));
    }
    out
}

/// Merge two trees, `high` taking precedence. The result is always `Ok`:
/// merging is total and never raises an error of its own.
pub fn merge_configs(base: ConfigValue, high: ConfigValue) -> (r: Result<
    ConfigValue,
    ParserError,
>)
    ensures
        r matches Ok(m) && m@ == merge_node(base@, high@),
{
    match (base, high) {
        (ConfigValue::Section(bs), ConfigValue::Section(hs)) => Ok(
            ConfigValue::Section(merge_sections(bs, hs)),
        ),
        (_b, h) => Ok(h),
    }
}

proof fn lemma_lookup_none_no_match(es: Seq<(Seq<char>, Node)>, k: Seq<char>)
    requires
        lookup_in(es, k) is None,
    ensures
        forall|j: int| 0 <= j < es.len() ==> es[j].0 != k,
    decreases es.len(),
{
    if es.len() > 0 {
        lemma_lookup_none_no_match(es.drop_first(), k);
        assert(forall|j: int| 1 <= j < es.len() ==> es[j].0 == es.drop_first()[j - 1].0);
    }
}

/// The key at any index is found by lookup.
proof fn lemma_lookup_present(es: Seq<(Seq<char>, Node)>, i: int)
    requires
        0 <= i < es.len(),
    ensures
        lookup_in(es, es[i].0) is Some,
    decreases i,
{
    if es[0].0 != es[i].0 {
        lemma_lookup_present(es.drop_first(), i - 1);
    }
}

/// With unique keys, lookup of the key at index `i` gives the value there.
pub proof fn lemma_lookup_at_index(es: Seq<(Seq<char>, Node)>, i: int)
    requires
        keys_unique(es),
        0 <= i < es.len(),
    ensures
        lookup_in(es, es[i].0) == Some(es[i].1),
{
    lemma_lookup_first_match(es, es[i].0, i);
}

/// How lookup reads through an upsert: the upserted key maps to the new
/// value, every other key is untouched.
proof fn lemma_upsert_lookup(es: Seq<(Seq<char>, Node)>, k: Seq<char>, v: Node, k2: Seq<char>)
    ensures
        lookup_in(upsert(es, k, v), k2) == if k2 == k {
            Some(v)
        } else {
            lookup_in(es, k2)
        },
    decreases es.len(),
{
    if es.len() == 0 {
        let r = seq![(k, v)];
        assert(upsert(es, k, v) =~= r);
        assert(r[0] == (k, v));
        assert(r.drop_first() =~= Seq::<(Seq<char>, Node)>::empty());
        if k2 == k {
            assert(lookup_in(r, k2) == Some(v));
        } else {
            assert(lookup_in(r, k2) == lookup_in(r.drop_first(), k2));
            assert(lookup_in(r.drop_first(), k2) is None);
            assert(lookup_in(es, k2) is None);
        }
    } else if es[0].0 == k {
        let r = seq![(k, v)] + es.drop_first();
        assert(upsert(es, k, v) =~= r);
        assert(r[0] == (k, v));
        assert(r.drop_first() =~= es.drop_first());
    } else {
        let r = seq![es[0]] + upsert(es.drop_first(), k, v);
        assert(upsert(es, k, v) =~= r);
        assert(r[0] == es[0]);
        assert(r.drop_first() =~= upsert(es.drop_first(), k, v));
        lemma_upsert_lookup(es.drop_first(), k, v, k2);
    }
}

/// How lookup reads through a push: an already-bound key keeps its value,
/// the pushed key becomes bound.
proof fn lemma_push_lookup(es: Seq<(Seq<char>, Node)>, k: Seq<char>, v: Node, k2: Seq<char>)
    ensures
        lookup_in(es.push((k, v)), k2) == if lookup_in(es, k2) is Some {
            lookup_in(es, k2)
        } else if k2 == k {
            Some(v)
        } else {
            None::<Node>
        },
    decreases es.len(),
{
    if es.len() == 0 {
        assert(es.push((k, v))[0] == (k, v));
        assert(es.push((k, v)).drop_first() =~= Seq::<(Seq<char>, Node)>::empty());
    } else {
        assert(es.push((k, v))[0] == es[0]);
        assert(es.push((k, v)).drop_first() =~= es.drop_first().push((k, v)));
        lemma_push_lookup(es.drop_first(), k, v, k2);
    }
}

/// Upserting the value a key already has changes nothing.
proof fn lemma_upsert_same(es: Seq<(Seq<char>, Node)>, k: Seq<char>, v: Node)
    requires
        lookup_in(es, k) == Some(v),
    ensures
        upsert(es, k, v) =~= es,
    decreases es.len(),
{
    if es.len() > 0 {
        if es[0].0 == k {
            assert((k, v) == es[0]);
            assert(seq![(k, v)] + es.drop_first() =~= es);
        } else {
            lemma_upsert_same(es.drop_first(), k, v);
            assert(seq![es[0]] + upsert(es.drop_first(), k, v) =~= es);
        }
    }
}

/// Upserting keeps keys unique.
pub proof fn lemma_upsert_unique(es: Seq<(Seq<char>, Node)>, k: Seq<char>, v: Node)
    requires
        keys_unique(es),
    ensures
        keys_unique(upsert(es, k, v)),
        upsert(es, k, v).len() == if has_key(es, k) {
            es.len()
        } else {
            es.len() + 1
        },
        forall|j: int| 0 <= j < upsert(es, k, v).len() ==> #[trigger] upsert(es, k, v)[j].0 == k
            || has_key(es, upsert(es, k, v)[j].0),
    decreases es.len(),
{
    if es.len() == 0 {
        assert(upsert(es, k, v) =~= seq![(k, v)]);
    } else if es[0].0 == k {
        let r = seq![(k, v)] + es.drop_first();
        assert(upsert(es, k, v) =~= r);
        assert(forall|j: int| 1 <= j < r.len() ==> r[j] == es[j]);
        assert(forall|j: int| 1 <= j < r.len() ==> r[j].0 != k);
        assert(forall|j: int| 1 <= j < r.len() ==> lookup_in(es, r[j].0) is Some) by {
            assert forall|j: int| 1 <= j < r.len() implies lookup_in(es, r[j].0) is Some by {
                lemma_lookup_present(es, j);
            }
        }
    } else {
        lemma_upsert_unique(es.drop_first(), k, v);
        let ru = upsert(es.drop_first(), k, v);
        let r = seq![es[0]] + ru;
        assert(upsert(es, k, v) =~= r);
        assert(forall|j: int| 1 <= j < r.len() ==> r[j] == ru[j - 1]);
        // es[0].0 is neither k nor a key of the tail, so it collides with
        // nothing in the upserted tail.
        assert(forall|j: int| 1 <= j < es.len() ==> (#[trigger] es[j]).0 != es[0].0);
        assert(forall|j: int|
            0 <= j < es.drop_first().len() ==> (#[trigger] es.drop_first()[j]).0 != es[0].0);
        lemma_lookup_no_match(es.drop_first(), es[0].0);
        assert(forall|j: int| 1 <= j < r.len() ==> r[j].0 != es[0].0) by {
            assert forall|j: int| 1 <= j < r.len() implies r[j].0 != es[0].0 by {
                if r[j].0 == es[0].0 {
                    assert(has_key(es.drop_first(), r[j].0) || r[j].0 == k);
                }
            }
        }
        assert(keys_unique(r));
        // Key-set and length facts lift from the tail.
        assert(has_key(es, k) == has_key(es.drop_first(), k)) by {
            assert(lookup_in(es, k) == lookup_in(es.drop_first(), k));
        }
        assert forall|j: int| 0 <= j < r.len() implies #[trigger] r[j].0 == k || has_key(
            es,
            r[j].0,
        ) by {
            if j == 0 {
                lemma_lookup_present(es, 0);
            } else if r[j].0 != k {
                assert(has_key(es.drop_first(), r[j].0));
                assert(lookup_in(es, r[j].0) == lookup_in(es.drop_first(), r[j].0));
            }
        }
    }
}

/// One merge step keeps keys unique.
proof fn lemma_merge_step_unique(bs: Seq<(Seq<char>, Node)>, k: Seq<char>, v: Node)
    requires
        keys_unique(bs),
    ensures
        keys_unique(merge_step(bs, k, v)),
{
    match lookup_in(bs, k) {
        Some(b0) => {
            lemma_upsert_unique(bs, k, merge_node(b0, v));
        },
        None => {
            lemma_lookup_none_no_match(bs, k);
            let r = bs.push((k, v));
            assert(forall|j: int| 0 <= j < bs.len() ==> r[j] == bs[j]);
            assert(keys_unique(r));
        },
    }
}

/// Merging keeps keys unique.
pub proof fn lemma_merge_entries_unique(bs: Seq<(Seq<char>, Node)>, hs: Seq<(Seq<char>, Node)>)
    requires
        keys_unique(bs),
    ensures
        keys_unique(merge_entries(bs, hs)),
    decreases hs.len(),
{
    if hs.len() > 0 {
        lemma_merge_step_unique(bs, hs[0].0, hs[0].1);
        lemma_merge_entries_unique(merge_step(bs, hs[0].0, hs[0].1), hs.drop_first());
    }
}

/// How one merge step reads: the folded key maps to its merged value, every
/// other key is untouched.
proof fn lemma_merge_step_lookup(bs: Seq<(Seq<char>, Node)>, k: Seq<char>, v: Node, k2: Seq<char>)
    ensures
        lookup_in(merge_step(bs, k, v), k2) == if k2 == k {
            match lookup_in(bs, k) {
                Some(b0) => Some(merge_node(b0, v)),
                None => Some(v),
            }
        } else {
            lookup_in(bs, k2)
        },
{
    match lookup_in(bs, k) {
        Some(b0) => {
            lemma_upsert_lookup(bs, k, merge_node(b0, v), k2);
        },
        None => {
            lemma_push_lookup(bs, k, v, k2);
        },
    }
}

/// What the merge of two sections binds each key to: keys of one side pass
/// through, keys of both sides merge their two values.
pub proof fn lemma_merge_entries_lookup(
    bs: Seq<(Seq<char>, Node)>,
    hs: Seq<(Seq<char>, Node)>,
    k: Seq<char>,
)
    requires
        keys_unique(bs),
        keys_unique(hs),
    ensures
        ({
            let l = lookup_in(merge_entries(bs, hs), k);
            match (lookup_in(bs, k), lookup_in(hs, k)) {
                (Option::None, Option::None) => l is None,
                (Option::Some(b), Option::None) => l == Some(b),
                (Option::None, Option::Some(h)) => l == Some(h),
                (Option::Some(b), Option::Some(h)) => l == Some(merge_node(b, h)),
            }
        }),
    decreases hs.len(),
{
    if hs.len() > 0 {
        let step = merge_step(bs, hs[0].0, hs[0].1);
        lemma_merge_step_unique(bs, hs[0].0, hs[0].1);
        assert(keys_unique(hs.drop_first()));
        lemma_merge_entries_lookup(step, hs.drop_first(), k);
        lemma_merge_step_lookup(bs, hs[0].0, hs[0].1, k);
        if k == hs[0].0 {
            // The folded key cannot recur in the unique tail.
            assert(forall|j: int| 0 <= j < hs.drop_first().len() ==> hs.drop_first()[j].0 != k);
            lemma_lookup_no_match(hs.drop_first(), k);
        } else {
            assert(lookup_in(hs, k) == lookup_in(hs.drop_first(), k));
        }
    }
}

/// The tree an optional lookup result holds, null when it holds none.
pub open spec fn found_node(o: Option<Node>) -> Node {
    match o {
        Some(v) => v,
        None => Node::Null,
    }
}

/// A fold that only re-binds keys to their current values leaves the
/// entries exactly as they were.
proof fn lemma_merge_entries_noop(bs: Seq<(Seq<char>, Node)>, hs: Seq<(Seq<char>, Node)>)
    requires
        forall|j: int| 0 <= j < hs.len() ==> #[trigger] lookup_in(bs, hs[j].0) is Some,
        forall|j: int|
            0 <= j < hs.len() ==> lookup_in(bs, #[trigger] hs[j].0) == Some(
                merge_node(found_node(lookup_in(bs, hs[j].0)), hs[j].1),
            ),
    ensures
        merge_entries(bs, hs) == bs,
    decreases hs.len(),
{
    if hs.len() > 0 {
        let k = hs[0].0;
        let v = hs[0].1;
        match lookup_in(bs, k) {
            Some(b0) => {
                assert(lookup_in(bs, k) == Some(merge_node(b0, v)));
                lemma_upsert_same(bs, k, merge_node(b0, v));
                assert(merge_step(bs, k, v) == bs);
            },
            None => {
                assert(false);
            },
        }
        assert(forall|j: int| 0 <= j < hs.drop_first().len() ==> hs.drop_first()[j] == hs[j + 1]);
        lemma_merge_entries_noop(bs, hs.drop_first());
    }
}

/// Merge idempotence: merging any well-formed tree with itself gives that
/// tree back, unchanged.
pub proof fn lemma_merge_idempotent(t: Node)
    requires
        node_wf(t),
    ensures
        merge_node(t, t) == t,
    decreases t,
{
    match t {
        Node::Section(es) => {
            assert(keys_unique(es));
            assert forall|j: int| 0 <= j < es.len() implies #[trigger] lookup_in(es, es[j].0)
                is Some && lookup_in(es, es[j].0) == Some(
                merge_node(found_node(lookup_in(es, es[j].0)), es[j].1),
            ) by {
                lemma_lookup_at_index(es, j);
                assert(node_wf(es[j].1));
                lemma_merge_idempotent(es[j].1);
                assert(found_node(lookup_in(es, es[j].0)) == es[j].1);
            }
            lemma_merge_entries_noop(es, es);
        },
        _ => {},
    }
}

/// Merge precedence: where the incoming section binds `k` to anything but a
/// section — a scalar, a sequence, a null — the merged section binds `k` to
/// exactly that incoming value, whatever the base held.
pub proof fn lemma_merge_precedence(
    bs: Seq<(Seq<char>, Node)>,
    hs: Seq<(Seq<char>, Node)>,
    k: Seq<char>,
)
    requires
        keys_unique(bs),
        keys_unique(hs),
        lookup_in(hs, k) is Some,
        !(lookup_in(hs, k) matches Some(h) && h is Section),
    ensures
        lookup_in(merge_entries(bs, hs), k) == lookup_in(hs, k),
{
    lemma_merge_entries_lookup(bs, hs, k);
}

/// Recursive merge: where both sections bind `k`, the merged section binds
/// `k` to the merge of the two values; keys of only one side pass through.
pub proof fn lemma_merge_recursive(
    bs: Seq<(Seq<char>, Node)>,
    hs: Seq<(Seq<char>, Node)>,
    k: Seq<char>,
)
    requires
        keys_unique(bs),
        keys_unique(hs),
    ensures
        (lookup_in(bs, k) is Some && lookup_in(hs, k) is Some) ==> lookup_in(
            merge_entries(bs, hs),
            k,
        ) == Some(merge_node(found_node(lookup_in(bs, k)), found_node(lookup_in(hs, k)))),
        lookup_in(hs, k) is None ==> lookup_in(merge_entries(bs, hs), k) == lookup_in(bs, k),
        lookup_in(bs, k) is None ==> lookup_in(merge_entries(bs, hs), k) == lookup_in(hs, k),
{
    lemma_merge_entries_lookup(bs, hs, k);
}

/// A found value is one of the entries' values.
proof fn lemma_lookup_member(es: Seq<(Seq<char>, Node)>, k: Seq<char>)
    requires
        lookup_in(es, k) is Some,
    ensures
        exists|j: int|
            0 <= j < es.len() && (#[trigger] es[j]).0 == k && es[j].1 == found_node(
                lookup_in(es, k),
            ),
    decreases es.len(),
{
    if es[0].0 == k {
        assert(es[0].0 == k && es[0].1 == found_node(lookup_in(es, k)));
    } else {
        lemma_lookup_member(es.drop_first(), k);
        let j0 = choose|j: int|
            0 <= j < es.drop_first().len() && (#[trigger] es.drop_first()[j]).0 == k
                && es.drop_first()[j].1 == found_node(lookup_in(es.drop_first(), k));
        assert(es[j0 + 1].0 == k && es[j0 + 1].1 == found_node(lookup_in(es, k)));
    }
}

/// Merging preserves well-formedness: the merge of two well-formed trees is
/// well-formed — in particular, merges never duplicate keys.
pub proof fn lemma_merge_wf(base: Node, high: Node)
    requires
        node_wf(base),
        node_wf(high),
    ensures
        node_wf(merge_node(base, high)),
    decreases high,
{
    match (base, high) {
        (Node::Section(bs), Node::Section(hs)) => {
            let r = merge_entries(bs, hs);
            lemma_merge_entries_unique(bs, hs);
            assert forall|i: int| 0 <= i < r.len() implies node_wf((#[trigger] r[i]).1) by {
                lemma_lookup_at_index(r, i);
                let k = r[i].0;
                lemma_merge_entries_lookup(bs, hs, k);
                match (lookup_in(bs, k), lookup_in(hs, k)) {
                    (Option::Some(b0), Option::Some(h0)) => {
                        lemma_lookup_member(bs, k);
                        lemma_lookup_member(hs, k);
                        let jb = choose|j: int|
                            0 <= j < bs.len() && (#[trigger] bs[j]).0 == k && bs[j].1
                                == found_node(lookup_in(bs, k));
                        let jh = choose|j: int|
                            0 <= j < hs.len() && (#[trigger] hs[j]).0 == k && hs[j].1
                                == found_node(lookup_in(hs, k));
                        assert(node_wf(bs[jb].1));
                        assert(node_wf(hs[jh].1));
                        assert(decreases_to!(hs => hs[jh]));
                        assert(decreases_to!(hs[jh] => hs[jh].1));
                        lemma_merge_wf(b0, h0);
                    },
                    (Option::Some(b0), Option::None) => {
                        lemma_lookup_member(bs, k);
                        let jb = choose|j: int|
                            0 <= j < bs.len() && (#[trigger] bs[j]).0 == k && bs[j].1
                                == found_node(lookup_in(bs, k));
                        assert(node_wf(bs[jb].1));
                    },
                    (Option::None, Option::Some(h0)) => {
                        lemma_lookup_member(hs, k);
                        let jh = choose|j: int|
                            0 <= j < hs.len() && (#[trigger] hs[j]).0 == k && hs[j].1
                                == found_node(lookup_in(hs, k));
                        assert(node_wf(hs[jh].1));
                    },
                    (Option::None, Option::None) => {
                        assert(false);
                    },
                }
            }
        },
        _ => {},
    }
}

/// Sequence replacement, and every other non-section pairing: the incoming
/// tree wins outright; sequences are never concatenated or merged
/// elementwise.
pub proof fn lemma_merge_replaces(base: Node, high: Node)
    requires
        !(base is Section && high is Section),
    ensures
        merge_node(base, high) == high,
{
}

/// One registered source: its priority, and the outcome of loading it.
pub type SourceEntry = (u8, Result<ConfigValue, ParserError>);

/// Insert one source into a priority-descending list, after every entry of
/// equal or larger priority; equal priorities therefore keep their
/// registration order.
pub open spec fn insert_desc(sorted: Seq<SourceEntry>, x: SourceEntry) -> Seq<SourceEntry>
    decreases sorted.len(),
{
    if sorted.len() == 0 {
        seq![x]
    } else if sorted[0].0 >= x.0 {
        seq![sorted[0]] + insert_desc(sorted.drop_first(), x)
    } else {
        seq![x] + sorted
    }
}

/// Stable sort of the sources by priority, descending.
pub open spec fn sort_desc(srcs: Seq<SourceEntry>) -> Seq<SourceEntry>
    decreases srcs.len(),
{
    if srcs.len() == 0 {
        srcs
    } else {
        insert_desc(sort_desc(srcs.drop_last()), srcs.last())
    }
}

/// The empty root every aggregation starts from.
pub open spec fn empty_section() -> Node {
    Node::Section(Seq::empty())
}

/// Fold the loaded trees into `acc` in order; the first load error aborts
/// the whole aggregation.
pub open spec fn fold_merge(acc: Node, srcs: Seq<SourceEntry>) -> Result<Node, ErrNode>
    decreases srcs.len(),
{
    if srcs.len() == 0 {
        Ok(acc)
    } else {
        match srcs[0].1 {
            Ok(t) => fold_merge(merge_node(acc, t@), srcs.drop_first()),
            Err(e) => Err(e@),
        }
    }
}

/// What aggregating a list of sources yields: the sources stable-sorted by
/// priority descending and folded through the merge from an empty section,
/// so that the numerically smallest priority is merged last and takes
/// precedence.
pub open spec fn aggregate_spec(srcs: Seq<SourceEntry>) -> Result<Node, ErrNode> {
    fold_merge(empty_section(), sort_desc(srcs))
}

/// Where the first entry of smaller priority stands at `i`, inserting is
/// splicing there.
proof fn lemma_insert_desc_at(s: Seq<SourceEntry>, x: SourceEntry, i: int)
    requires
        0 <= i <= s.len(),
        forall|j: int| 0 <= j < i ==> (#[trigger] s[j]).0 >= x.0,
        i < s.len() ==> s[i].0 < x.0,
    ensures
        insert_desc(s, x) =~= s.take(i) + seq![x] + s.skip(i),
    decreases i,
{
    if i == 0 {
        if s.len() == 0 {
            assert(insert_desc(s, x) =~= seq![x]);
            assert(s.take(0) + seq![x] + s.skip(0) =~= seq![x]);
        } else {
            assert(s[0].0 < x.0);
            assert(insert_desc(s, x) =~= seq![x] + s);
            assert(s.take(0) + seq![x] + s.skip(0) =~= seq![x] + s);
        }
    } else {
        assert(s[0].0 >= x.0);
        lemma_insert_desc_at(s.drop_first(), x, i - 1);
        assert(insert_desc(s, x) =~= seq![s[0]] + insert_desc(s.drop_first(), x));
        assert(seq![s[0]] + (s.drop_first().take(i - 1) + seq![x] + s.drop_first().skip(i - 1))
            =~= s.take(i) + seq![x] + s.skip(i));
    }
}

/// Builder for one configuration: sources are registered with a priority,
/// already loaded (or failed), and folded into one tree on demand.
pub struct ConfigBuilder {
    /// The registered sources, in registration order.
    pub sources: Vec<SourceEntry>,
}

impl ConfigBuilder {
    /// An empty builder with no sources.
    pub fn new() -> (r: Self)
        ensures
            r.sources@ =~= Seq::<SourceEntry>::empty(),
    {
        ConfigBuilder { sources: Vec::new() }
    }

    /// Register one source: its priority (smaller numeric value takes
    /// precedence) and the outcome of loading it.
    pub fn add_source(self, priority: u8, loaded: Result<ConfigValue, ParserError>) -> (r: Self)
        ensures
            r.sources@ == self.sources@.push((priority, loaded)),
    {
        let mut sources = self.sources;
        sources.push((priority, loaded));
        ConfigBuilder { sources }
    }

    /// Aggregate all registered sources: stable-sort by priority descending,
    /// then fold the trees through the merge; the first source whose load
    /// failed aborts the aggregation with its error, and no partial tree is
    /// merged past it.
    #[verifier::loop_isolation(false)]
    pub fn load(self) -> (r: Result<ConfigValue, ParserError>)
        ensures
            match r {
                Ok(v) => aggregate_spec(self.sources@) == Ok::<Node, ErrNode>(v@),
                Err(e) => aggregate_spec(self.sources@) == Err::<Node, ErrNode>(e@),
            },
    {
        let ghost src0 = self.sources@;
        let mut rest = self.sources;
        let mut sorted: Vec<SourceEntry> = Vec::new();
        let ghost mut p: int = 0;
        proof {
            assert(src0.take(0) =~= Seq::<SourceEntry>::empty());
        }
        while rest.len() > 0
            invariant
                0 <= p <= src0.len(),
                rest@ =~= src0.skip(p),
                sorted@ == sort_desc(src0.take(p)),
            decreases rest@.len(),
        {
            let ghost sorted_old = sorted@;
            let x = rest.remove(0);
            proof {
                assert(x == src0[p]);
                assert(rest@ =~= src0.skip(p + 1));
            }
            let mut i: usize = 0;
            while i < sorted.len() && sorted[i].0 >= x.0
                invariant
                    i <= sorted@.len(),
                    sorted@ == sorted_old,
                    forall|j: int| 0 <= j < i ==> (#[trigger] sorted@[j]).0 >= x.0,
                decreases sorted@.len() - i,
            {
                i = i + 1;
            }
            proof {
                lemma_insert_desc_at(sorted@, x, i as int);
            }
            sorted.insert(i, x);
            proof {
                assert(sorted@ =~= sorted_old.take(i as int) + seq![x] + sorted_old.skip(
                    i as int,
                ));
                assert(sorted@ == insert_desc(sorted_old, x));
                assert(src0.take(p + 1).drop_last() =~= src0.take(p));
                assert(src0.take(p + 1).last() == src0[p]);
                p = p + 1;
            }
        }
        proof {
            assert(src0.take(src0.len() as int) =~= src0);
        }
        let ghost sorted0 = sorted@;
        let mut acc = ConfigValue::Section(Vec::new());
        proof {
            assert(entries_model(Seq::<(String, ConfigValue)>::empty())
                =~= Seq::<(Seq<char>, Node)>::empty());
            assert(acc@ == empty_section());
        }
        let mut q = sorted;
        while q.len() > 0
            invariant
                fold_merge(empty_section(), sorted0) == fold_merge(acc@, q@),
            decreases q@.len(),
        {
            let ghost q_old = q@;
            let ghost acc_old = acc@;
            let (_pri, res) = q.remove(0);
            proof {
                assert(q@ =~= q_old.drop_first());
            }
            match res {
                Err(e) => {
                    return Err(e);
                },
                Ok(t) => {
                    acc = match merge_configs(acc, t) {
                        Ok(m) => m,
                        Err(_) => vstd::pervasive::unreached(),
                    };
                    proof {
                        assert(acc@ == merge_node(acc_old, t@));
                    }
                },
            }
        }
        Ok(acc)
    }
}

/// Keys absent from the base simply accumulate: merging a section whose keys
/// are all fresh appends its entries.
proof fn lemma_merge_disjoint(bs: Seq<(Seq<char>, Node)>, hs: Seq<(Seq<char>, Node)>)
    requires
        keys_unique(hs),
        forall|j: int| 0 <= j < hs.len() ==> !has_key(bs, (#[trigger] hs[j]).0),
    ensures
        merge_entries(bs, hs) =~= bs + hs,
    decreases hs.len(),
{
    if hs.len() == 0 {
        assert(bs + hs =~= bs);
    } else {
        let k = hs[0].0;
        let v = hs[0].1;
        assert(merge_step(bs, k, v) == bs.push((k, v)));
        assert forall|j: int| 0 <= j < hs.drop_first().len() implies !has_key(
            bs.push((k, v)),
            (#[trigger] hs.drop_first()[j]).0,
        ) by {
            let k2 = hs.drop_first()[j].0;
            lemma_push_lookup(bs, k, v, k2);
            assert(hs[j + 1].0 == k2);
            assert(k2 != k);
        }
        lemma_merge_disjoint(bs.push((k, v)), hs.drop_first());
        assert(bs.push((k, v)) + hs.drop_first() =~= bs + hs);
    }
}

/// Merging a well-formed section into the empty root gives that section
/// back, entry for entry.
pub proof fn lemma_merge_empty_base(hs: Seq<(Seq<char>, Node)>)
    requires
        keys_unique(hs),
    ensures
        merge_node(empty_section(), Node::Section(hs)) == Node::Section(hs),
{
    assert forall|j: int| 0 <= j < hs.len() implies !has_key(
        Seq::<(Seq<char>, Node)>::empty(),
        (#[trigger] hs[j]).0,
    ) by {
        assert(lookup_in(Seq::<(Seq<char>, Node)>::empty(), hs[j].0) is None);
    }
    lemma_merge_disjoint(Seq::empty(), hs);
    assert(Seq::<(Seq<char>, Node)>::empty() + hs =~= hs);
}

/// Priority ordering: two sources with distinct priorities aggregate the
/// same whichever was registered first, and the numerically larger priority
/// is always folded first, as the base.
pub proof fn lemma_priority_ordering(a: SourceEntry, b: SourceEntry)
    requires
        a.0 > b.0,
    ensures
        aggregate_spec(seq![a, b]) == aggregate_spec(seq![b, a]),
        aggregate_spec(seq![a, b]) == fold_merge(empty_section(), seq![a, b]),
{
    let ab = seq![a, b];
    let ba = seq![b, a];
    assert(ab.drop_last() =~= seq![a]);
    assert(ba.drop_last() =~= seq![b]);
    assert(ab.last() == b);
    assert(ba.last() == a);
    assert(seq![a][0] == a && seq![b][0] == b);
    assert(seq![a].last() == a && seq![b].last() == b);
    assert(seq![a].drop_first() =~= Seq::<SourceEntry>::empty());
    assert(seq![b].drop_first() =~= Seq::<SourceEntry>::empty());
    assert(seq![a].drop_last() =~= Seq::<SourceEntry>::empty());
    assert(seq![b].drop_last() =~= Seq::<SourceEntry>::empty());
    assert(sort_desc(Seq::<SourceEntry>::empty()) =~= Seq::<SourceEntry>::empty());
    assert(sort_desc(seq![a]) == insert_desc(sort_desc(Seq::empty()), a));
    assert(sort_desc(seq![b]) == insert_desc(sort_desc(Seq::empty()), b));
    assert(insert_desc(Seq::<SourceEntry>::empty(), a) =~= seq![a]);
    assert(insert_desc(Seq::<SourceEntry>::empty(), b) =~= seq![b]);
    assert(sort_desc(ab) == insert_desc(seq![a], b));
    assert(insert_desc(seq![a], b) =~= seq![a] + insert_desc(Seq::<SourceEntry>::empty(), b));
    assert(seq![a] + seq![b] =~= ab);
    assert(sort_desc(ab) == ab);
    assert(sort_desc(ba) == insert_desc(seq![b], a));
    assert(insert_desc(seq![b], a) =~= seq![a] + seq![b]);
    assert(sort_desc(ba) == ab);
}

} // verus!
