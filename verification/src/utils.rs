//! Small helpers over the value tree: merging entry maps, parsing numbers,
//! and validating field names.

use vstd::prelude::*;
use vstd::string::StrSliceExecFns;

use crate::parser::{ErrNode, ParserError};
use crate::scalars::parse_i64_spec;
use crate::source::merge_entries;
use crate::value::{ConfigValue, entries_model};

verus! {

/// Merge two sections' entry maps, the second taking precedence; nested
/// sections merge recursively, every other conflict keeps the second map's
/// value.
pub fn merge_maps(
    base: Vec<(String, ConfigValue)>,
    high: Vec<(String, ConfigValue)>,
) -> (r: Vec<(String, ConfigValue)>)
    ensures
        entries_model(r@) == merge_entries(entries_model(base@), entries_model(high@)),
{
    crate::source::merge_sections(base, high)
}

/// Parse a signed decimal numeral.
pub fn parse_numeric(s: &str) -> (r: Result<i64, ParserError>)
    ensures
        match r {
            Ok(n) => parse_i64_spec(s@) == Some(n),
            Err(e) => parse_i64_spec(s@) is None && e@ == ErrNode::TypeMismatch {
                field: ""@,
                expected: "i64"@,
                found: Some(s@),
            },
        },
{
    match crate::scalars::parse_i64(s) {
        Some(n) => Ok(n),
        None => Err(
            ParserError::TypeMismatch {
                field: "".to_owned(),
                expected: "i64".to_owned(),
                found: Some(s.to_owned()),
            },
        ),
    }
}

/// Whether `c` may stand in a field name.
pub open spec fn is_name_char(c: char) -> bool {
    ('a' <= c && c <= 'z') || ('A' <= c && c <= 'Z') || ('0' <= c && c <= '9') || c == '_'
}

/// Whether `s` is a well-formed field name: non-empty, of letters, digits
/// and underscores only, and not starting with a digit.
pub open spec fn valid_field_name(s: Seq<char>) -> bool {
    s.len() > 0 && (forall|i: int| 0 <= i < s.len() ==> is_name_char(#[trigger] s[i])) && !('0'
        <= s[0] && s[0] <= '9')
}

/// Check that `s` is a well-formed field name.
pub fn validate_field_name(s: &str) -> (r: Result<(), ParserError>)
    ensures
        (r is Ok) <==> valid_field_name(s@),
        r matches Err(e) ==> e@ == (ErrNode::TypeMismatch {
            field: s@,
            expected: "a name of letters, digits and underscores"@,
            found: None,
        }),
{
    let n = s.unicode_len();
    let bad = ParserError::TypeMismatch {
        field: s.to_owned(),
        expected: "a name of letters, digits and underscores".to_owned(),
        found: None,
    };
    if n == 0 {
        return Err(bad);
    }
    let first = s.get_char(0);
    if '0' <= first && first <= '9' {
        return Err(bad);
    }
    for i in 0..n
        invariant
            n == s@.len(),
            forall|j: int| 0 <= j < i ==> is_name_char(#[trigger] s@[j]),
            bad@ == (ErrNode::TypeMismatch {
                field: s@,
                expected: "a name of letters, digits and underscores"@,
                found: None,
            }),
    {
        let c = s.get_char(i);
        let ok = ('a' <= c && c <= 'z') || ('A' <= c && c <= 'Z') || ('0' <= c && c <= '9') || c
            == '_';
        if !ok {
            return Err(bad);
        }
    }
    Ok(())
}

} // verus!
