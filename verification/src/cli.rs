//! The command-line source: a flat section parsed from `--key=value`
//! tokens.
//!
//! The tokens are handed in explicitly rather than read from process-wide
//! state, so a load never touches global state and tests can bind any
//! argument list they like.

use vstd::prelude::*;
use vstd::string::StrSliceExecFns;
use vstd::string::StringExecFns;

use crate::parser::ParserError;
use crate::source::upsert;
use crate::value::{ConfigValue, Node, entries_model, keys_unique, node_wf};

verus! {

broadcast use vstd::std_specs::vec::axiom_vec_decreases_to_view;

/// Whether `p` starts `s`.
pub open spec fn is_prefix(p: Seq<char>, s: Seq<char>) -> bool {
    s.len() >= p.len() && s.take(p.len() as int) == p
}

/// Split at the first `=`: the part before it and the part after it, or
/// nothing when `s` has none.
pub open spec fn eq_split(s: Seq<char>) -> Option<(Seq<char>, Seq<char>)>
    decreases s.len(),
{
    if s.len() == 0 {
        None
    } else if s[0] == '=' {
        Some((Seq::<char>::empty(), s.drop_first()))
    } else {
        match eq_split(s.drop_first()) {
            Some(kv) => Some((seq![s[0]] + kv.0, kv.1)),
            None => None,
        }
    }
}

/// The key/value pair one token denotes: `--key=value` tokens yield
/// `(key, value)`, every other token is ignored.
pub open spec fn cli_arg_kv(arg: Seq<char>) -> Option<(Seq<char>, Seq<char>)> {
    if is_prefix("--"@, arg) {
        eq_split(arg.skip(2))
    } else {
        None
    }
}

/// The flat section the argument list denotes: recognized tokens become
/// entries keyed by their flag name, in order, a later token overwriting an
/// earlier one with the same key in place.
pub open spec fn cli_entries(args: Seq<Seq<char>>) -> Seq<(Seq<char>, Node)>
    decreases args.len(),
{
    if args.len() == 0 {
        Seq::empty()
    } else {
        let prev = cli_entries(args.drop_last());
        match cli_arg_kv(args.last()) {
            Some(kv) => upsert(prev, kv.0, Node::Scalar(kv.1)),
            None => prev,
        }
    }
}

/// The views of a vector of argument strings.
pub open spec fn args_model(args: Seq<String>) -> Seq<Seq<char>> {
    Seq::new(args.len(), |i: int| args[i]@)
}

/// The parsed argument section has unique keys bound to scalars.
pub proof fn lemma_cli_entries_wf(args: Seq<Seq<char>>)
    ensures
        keys_unique(cli_entries(args)),
        forall|j: int| 0 <= j < cli_entries(args).len() ==> (#[trigger] cli_entries(
            args,
        )[j]).1 is Scalar,
        node_wf(Node::Section(cli_entries(args))),
    decreases args.len(),
{
    if args.len() > 0 {
        lemma_cli_entries_wf(args.drop_last());
        let prev = cli_entries(args.drop_last());
        match cli_arg_kv(args.last()) {
            Some(kv) => {
                crate::source::lemma_upsert_unique(prev, kv.0, Node::Scalar(kv.1));
                let r = upsert(prev, kv.0, Node::Scalar(kv.1));
                lemma_upsert_scalar(prev, kv.0, kv.1);
            },
            None => {},
        }
    }
    let es = cli_entries(args);
    assert forall|j: int| 0 <= j < es.len() implies node_wf((#[trigger] es[j]).1) by {
        assert(es[j].1 is Scalar);
    }
}

/// Upserting a scalar into all-scalar entries keeps them all scalars.
proof fn lemma_upsert_scalar(es: Seq<(Seq<char>, Node)>, k: Seq<char>, v: Seq<char>)
    requires
        forall|j: int| 0 <= j < es.len() ==> (#[trigger] es[j]).1 is Scalar,
    ensures
        forall|j: int|
            0 <= j < upsert(es, k, Node::Scalar(v)).len() ==> (#[trigger] upsert(
                es,
                k,
                Node::Scalar(v),
            )[j]).1 is Scalar,
    decreases es.len(),
{
    if es.len() == 0 {
        assert(upsert(es, k, Node::Scalar(v)) =~= seq![(k, Node::Scalar(v))]);
    } else if es[0].0 == k {
        let r = seq![(k, Node::Scalar(v))] + es.drop_first();
        assert(upsert(es, k, Node::Scalar(v)) =~= r);
        assert(forall|j: int| 1 <= j < r.len() ==> (#[trigger] r[j]) == es[j]);
    } else {
        assert(forall|j: int|
            0 <= j < es.drop_first().len() ==> (#[trigger] es.drop_first()[j]).1 is Scalar);
        lemma_upsert_scalar(es.drop_first(), k, v);
        let ru = upsert(es.drop_first(), k, Node::Scalar(v));
        let r = seq![es[0]] + ru;
        assert(upsert(es, k, Node::Scalar(v)) =~= r);
        assert(forall|j: int| 1 <= j < r.len() ==> (#[trigger] r[j]) == ru[j - 1]);
    }
}

/// Where the first `=` of `s` stands at `j`, the split is around `j`.
proof fn lemma_eq_split_at(s: Seq<char>, j: int)
    requires
        0 <= j < s.len(),
        s[j] == '=',
        forall|l: int| 0 <= l < j ==> s[l] != '=',
    ensures
        eq_split(s) == Some((s.take(j), s.skip(j + 1))),
    decreases j,
{
    if j == 0 {
        assert(s.take(0) =~= Seq::<char>::empty());
        assert(s.skip(1) =~= s.drop_first());
    } else {
        lemma_eq_split_at(s.drop_first(), j - 1);
        assert(seq![s[0]] + s.drop_first().take(j - 1) =~= s.take(j));
        assert(s.drop_first().skip(j) =~= s.skip(j + 1));
    }
}

/// Without an `=` there is no split.
proof fn lemma_eq_split_none(s: Seq<char>)
    requires
        forall|l: int| 0 <= l < s.len() ==> s[l] != '=',
    ensures
        eq_split(s) is None,
    decreases s.len(),
{
    if s.len() > 0 {
        lemma_eq_split_none(s.drop_first());
    }
}

/// A configuration source fed from command-line tokens.
pub struct CliSource {
    /// This source's priority; smaller numeric value takes precedence.
    pub priority: u8,
    /// The raw tokens, without the program name.
    pub args: Vec<String>,
}

impl CliSource {
    /// A CLI source with the given priority and no tokens yet.
    pub fn new(priority: u8) -> (r: Self)
        ensures
            r.priority == priority,
            r.args@ =~= Seq::<String>::empty(),
    {
        CliSource { priority, args: Vec::new() }
    }

    /// A CLI source over the given tokens.
    pub fn from_args(priority: u8, args: Vec<String>) -> (r: Self)
        ensures
            r.priority == priority,
            r.args == args,
    {
        CliSource { priority, args }
    }

    /// This source's priority.
    pub fn priority(&self) -> (r: u8)
        ensures
            r == self.priority,
    {
        self.priority
    }

    /// Parse the tokens into a flat, well-formed section: each `--key=value`
    /// token binds `key` to the scalar `value`, later tokens overwriting
    /// earlier ones; every other token is ignored. Never fails.
    #[verifier::loop_isolation(false)]
    pub fn load(&self) -> (r: Result<ConfigValue, ParserError>)
        ensures
            r matches Ok(v) && v@ == Node::Section(cli_entries(args_model(self.args@)))
                && v.wf(),
    {
        let ghost am = args_model(self.args@);
        let mut out: Vec<(String, ConfigValue)> = Vec::new();
        let n = self.args.len();
        proof {
            assert(entries_model(out@) =~= Seq::<(Seq<char>, Node)>::empty());
            assert(am.take(0) =~= Seq::<Seq<char>>::empty());
        }
        for i in 0..n
            invariant
                n == self.args@.len(),
                am == args_model(self.args@),
                entries_model(out@) == cli_entries(am.take(i as int)),
        {
            let ghost out_old = out@;
            let arg: &str = self.args[i].as_str();
            let ghost a = arg@;
            proof {
                assert(am.take(i + 1).drop_last() =~= am.take(i as int));
                assert(am.take(i + 1).last() == a);
                reveal_strlit("--");
                assert("--"@.len() == 2);
            }
            let alen = arg.unicode_len();
            if alen >= 2 && arg.get_char(0) == '-' && arg.get_char(1) == '-' {
                proof {
                    assert(a.take(2) =~= "--"@);
                    assert(is_prefix("--"@, a));
                }
                // Find the first '=' past the leading dashes.
                let ghost rest = a.skip(2);
                let mut j: usize = 2;
                let mut found: bool = false;
                while j < alen && !found
                    invariant
                        2 <= j <= alen,
                        !found ==> forall|l: int| 2 <= l < j ==> a[l] != '=',
                        found ==> j < alen && a[j as int] == '=' && forall|l: int|
                            2 <= l < j ==> a[l] != '=',
                    decreases alen - j + (if found {
                        0int
                    } else {
                        1int
                    }),
                {
                    if arg.get_char(j) == '=' {
                        found = true;
                    } else {
                        j = j + 1;
                    }
                }
                if found {
                    proof {
                        assert(forall|l: int| 0 <= l < j - 2 ==> rest[l] == a[l + 2]);
                        assert(rest[j - 2] == '=');
                        lemma_eq_split_at(rest, j - 2);
                        assert(rest.take(j - 2) =~= a.subrange(2, j as int));
                        assert(rest.skip(j - 1) =~= a.subrange(j + 1, alen as int));
                    }
                    let key = arg.substring_char(2, j).to_owned();
                    let val = arg.substring_char(j + 1, alen).to_owned();
                    proof {
                        assert(cli_arg_kv(a) == Some((key@, val@)));
                    }
                    let ghost ms = entries_model(out@);
                    match crate::source::key_position(&out, key.as_str()) {
                        Some(idx) => {
                            proof {
                                crate::source::lemma_upsert_at(ms, key@, Node::Scalar(val@),
                                    idx as int);
                            }
                            let _old = out.remove(idx);
                            out.insert(idx, (key, ConfigValue::Value(val)));
                            proof {
                                assert(out@ =~= out_old.update(
                                    idx as int,
                                    (key, ConfigValue::Value(val)),
                                ));
                                assert(entries_model(out@) =~= ms.update(
                                    idx as int,
                                    (key@, Node::Scalar(val@)),
                                ));
                                assert(entries_model(out@) =~= upsert(ms, key@, Node::Scalar(val@)));
                            }
                        },
                        None => {
                            proof {
                                crate::source::lemma_lookup_no_match(ms, key@);
                                lemma_upsert_fresh(ms, key@, Node::Scalar(val@));
                            }
                            out.push((key, ConfigValue::Value(val)));
                            proof {
                                assert(entries_model(out@) =~= ms.push((key@, Node::Scalar(val@))));
                            }
                        },
                    }
                } else {
                    proof {
                        assert(forall|l: int| 0 <= l < rest.len() ==> rest[l] == a[l + 2]);
                        lemma_eq_split_none(rest);
                        assert(cli_arg_kv(a) is None);
                    }
                }
            } else {
                proof {
                    reveal_strlit("--");
                    if a.len() >= 2 && a.take(2) == "--"@ {
                        assert(a.take(2)[0] == a[0] && a.take(2)[1] == a[1]);
                        assert("--"@[0] == '-' && "--"@[1] == '-');
                        assert(a[0] == '-' && a[1] == '-');
                    }
                    assert(!is_prefix("--"@, a));
                }
            }
            proof {
                assert(entries_model(out@) == cli_entries(am.take(i + 1)));
            }
        }
        proof {
            assert(am.take(n as int) =~= am);
            lemma_cli_entries_wf(am);
        }
        Ok(ConfigValue::Section(out))
    }
}

/// Upserting a fresh key appends its entry.
proof fn lemma_upsert_fresh(es: Seq<(Seq<char>, Node)>, k: Seq<char>, v: Node)
    requires
        forall|j: int| 0 <= j < es.len() ==> (#[trigger] es[j]).0 != k,
    ensures
        upsert(es, k, v) =~= es.push((k, v)),
    decreases es.len(),
{
    if es.len() == 0 {
        assert(upsert(es, k, v) =~= seq![(k, v)]);
        assert(es.push((k, v)) =~= seq![(k, v)]);
    } else {
        assert(forall|j: int|
            0 <= j < es.drop_first().len() ==> (#[trigger] es.drop_first()[j]).0 != k);
        lemma_upsert_fresh(es.drop_first(), k, v);
        assert(seq![es[0]] + es.drop_first().push((k, v)) =~= es.push((k, v)));
    }
}

} // verus!
