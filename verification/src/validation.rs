//! Presence checks over a section: which required keys are absent.

use vstd::prelude::*;

use crate::value::{ConfigValue, entries_model, has_key};

verus! {

/// The views of a vector of strings.
pub open spec fn names_model(ns: Seq<String>) -> Seq<Seq<char>> {
    Seq::new(ns.len(), |i: int| ns[i]@)
}

/// The required names absent from the entries, in the order they were
/// required.
pub open spec fn missing_of(es: Seq<(Seq<char>, crate::value::Node)>, req: Seq<Seq<char>>) -> Seq<
    Seq<char>,
>
    decreases req.len(),
{
    if req.len() == 0 {
        Seq::empty()
    } else if has_key(es, req[0]) {
        missing_of(es, req.drop_first())
    } else {
        seq![req[0]] + missing_of(es, req.drop_first())
    }
}

/// The required field names that the section does not bind, in the order
/// they were required; empty exactly when every required field is present.
#[verifier::loop_isolation(false)]
pub fn check_required_fields(map: &Vec<(String, ConfigValue)>, required: &Vec<String>) -> (r: Vec<
    String,
>)
    ensures
        names_model(r@) == missing_of(entries_model(map@), names_model(required@)),
{
    let ghost es = entries_model(map@);
    let ghost req = names_model(required@);
    let mut out: Vec<String> = Vec::new();
    let n = required.len();
    proof {
        assert(req.skip(0) =~= req);
        assert(names_model(out@) =~= Seq::<Seq<char>>::empty());
    }
    for i in 0..n
        invariant
            n == required@.len(),
            names_model(out@) + missing_of(es, req.skip(i as int)) =~= missing_of(es, req),
    {
        let ghost out_old = out@;
        proof {
            assert(req.skip(i as int)[0] == req[i as int]);
            assert(req.skip(i as int).drop_first() =~= req.skip(i as int + 1));
        }
        match crate::value::section_get(map, required[i].as_str()) {
            Some(_) => {
                proof {
                    assert(has_key(es, req[i as int]));
                }
            },
            None => {
                out.push(required[i].clone());
                proof {
                    assert(names_model(out@) =~= names_model(out_old).push(req[i as int]));
                    assert(names_model(out_old) + (seq![req[i as int]] + missing_of(
                        es,
                        req.skip(i as int + 1),
                    )) =~= names_model(out@) + missing_of(es, req.skip(i as int + 1)));
                }
            },
        }
    }
    proof {
        assert(req.skip(n as int).len() == 0);
        assert(names_model(out@) + Seq::<Seq<char>>::empty() =~= names_model(out@));
    }
    out
}

} // verus!
