//! Typed interpretation of scalar strings: the canonical textual grammars of
//! booleans, integers and characters, and decimal rendering of integers.

use vstd::prelude::*;
use vstd::string::StrSliceExecFns;
use vstd::string::StringExecFns;

verus! {

/// Whether `c` is a decimal digit.
pub open spec fn is_digit(c: char) -> bool {
    '0' <= c && c <= '9'
}

/// The numeric value of a digit character.
pub open spec fn digit_val(c: char) -> nat {
    ((c as int) - ('0' as int)) as nat
}

/// The digit character for a value below ten.
pub open spec fn digit_char(d: nat) -> char {
    ((d + ('0' as nat)) as u8) as char
}

/// The value of a non-empty digit string read in base ten.
pub open spec fn digits_val(s: Seq<char>) -> nat
    decreases s.len(),
{
    if s.len() == 0 {
        0
    } else {
        digits_val(s.drop_last()) * 10 + digit_val(s.last())
    }
}

/// Whether `s` is one or more decimal digits.
pub open spec fn all_digits(s: Seq<char>) -> bool {
    s.len() > 0 && forall|i: int| 0 <= i < s.len() ==> is_digit(#[trigger] s[i])
}

/// The digits of an unsigned decimal numeral, after an optional leading `+`.
pub open spec fn unsigned_body(s: Seq<char>) -> Seq<char> {
    if s.len() > 0 && s[0] == '+' {
        s.drop_first()
    } else {
        s
    }
}

/// What `s` denotes as an unsigned 64-bit integer: an optional `+`, then
/// digits, whose value fits.
pub open spec fn parse_u64_spec(s: Seq<char>) -> Option<u64> {
    let body = unsigned_body(s);
    if all_digits(body) && digits_val(body) <= u64::MAX {
        Some(digits_val(body) as u64)
    } else {
        None
    }
}

/// The sign of a signed numeral: `-1` for a leading `-`, else `1`.
pub open spec fn signed_sign(s: Seq<char>) -> int {
    if s.len() > 0 && s[0] == '-' {
        -1
    } else {
        1
    }
}

/// The digits of a signed decimal numeral, after an optional sign.
pub open spec fn signed_body(s: Seq<char>) -> Seq<char> {
    if s.len() > 0 && (s[0] == '-' || s[0] == '+') {
        s.drop_first()
    } else {
        s
    }
}

/// What `s` denotes as a signed 64-bit integer: an optional sign, then
/// digits, whose value fits.
pub open spec fn parse_i64_spec(s: Seq<char>) -> Option<i64> {
    let body = signed_body(s);
    let v = signed_sign(s) * digits_val(body);
    if all_digits(body) && i64::MIN <= v <= i64::MAX {
        Some(v as i64)
    } else {
        None
    }
}

/// What `s` denotes as a boolean: exactly `true` or `false`.
pub open spec fn parse_bool_spec(s: Seq<char>) -> Option<bool> {
    if s == "true"@ {
        Some(true)
    } else if s == "false"@ {
        Some(false)
    } else {
        None
    }
}

/// What `s` denotes as a character: the sole character of a string of
/// length one.
pub open spec fn parse_char_spec(s: Seq<char>) -> Option<char> {
    if s.len() == 1 {
        Some(s[0])
    } else {
        None
    }
}

/// The base-ten rendering of `n`, without sign and without leading zeros
/// (zero itself renders as `0`).
pub open spec fn dec_str(n: nat) -> Seq<char>
    decreases n,
{
    if n < 10 {
        seq![digit_char(n)]
    } else {
        dec_str(n / 10).push(digit_char(n % 10))
    }
}

/// Reading back the digits of a rendering gives the number again.
pub proof fn lemma_dec_str_val(n: nat)
    ensures
        all_digits(dec_str(n)),
        digits_val(dec_str(n)) == n,
    decreases n,
{
    if n < 10 {
        assert(dec_str(n) =~= seq![digit_char(n)]);
        assert(dec_str(n).drop_last() =~= Seq::<char>::empty());
        assert(digit_val(digit_char(n)) == n);
        assert(digits_val(dec_str(n)) == digits_val(Seq::<char>::empty()) * 10 + digit_val(
            digit_char(n),
        ));
    } else {
        lemma_dec_str_val(n / 10);
        assert(dec_str(n).drop_last() =~= dec_str(n / 10));
        assert(digit_val(digit_char(n % 10)) == n % 10);
        assert(digits_val(dec_str(n)) == digits_val(dec_str(n / 10)) * 10 + digit_val(
            digit_char(n % 10),
        ));
        assert((n / 10) * 10 + n % 10 == n) by (nonlinear_arith);
    }
}

/// Extending a digit prefix by one digit multiplies its value by ten.
proof fn lemma_digits_val_take_step(s: Seq<char>, i: int)
    requires
        0 <= i < s.len(),
    ensures
        digits_val(s.take(i + 1)) == digits_val(s.take(i)) * 10 + digit_val(s[i]),
{
    assert(s.take(i + 1).drop_last() =~= s.take(i));
    assert(s.take(i + 1).last() == s[i]);
}

/// The value of a digit string is monotone in its prefixes.
proof fn lemma_digits_val_prefix_le(s: Seq<char>, i: int)
    requires
        0 <= i <= s.len(),
    ensures
        digits_val(s.take(i)) <= digits_val(s),
    decreases s.len() - i,
{
    if i == s.len() {
        assert(s.take(i) =~= s);
    } else {
        lemma_digits_val_take_step(s, i);
        lemma_digits_val_prefix_le(s, i + 1);
    }
}

/// The value of a non-empty digit string, all digits read.
proof fn lemma_digits_val_full(s: Seq<char>)
    ensures
        digits_val(s.take(s.len() as int)) == digits_val(s),
{
    assert(s.take(s.len() as int) =~= s);
}

/// Parse the digits of `s` starting at `from`, as an unsigned 64-bit value.
fn parse_digits(s: &str, from: usize) -> (r: Option<u64>)
    requires
        from <= s@.len(),
    ensures
        match r {
            Some(v) => all_digits(s@.skip(from as int)) && digits_val(s@.skip(from as int))
                == v as nat,
            None => !(all_digits(s@.skip(from as int)) && digits_val(s@.skip(from as int))
                <= u64::MAX),
        },
{
    let ghost body = s@.skip(from as int);
    let n = s.unicode_len();
    if from == n {
        proof {
            assert(body.len() == 0);
        }
        return None;
    }
    let mut acc: u64 = 0;
    let mut i = from;
    while i < n
        invariant
            from <= i <= n,
            n == s@.len(),
            body == s@.skip(from as int),
            acc as nat == digits_val(body.take(i - from)),
            all_digits(body.take(i - from)) || i == from,
            forall|j: int| 0 <= j < i - from ==> is_digit(#[trigger] body[j]),
        decreases n - i,
    {
        let c = s.get_char(i);
        proof {
            assert(body[i - from] == s@[i as int]);
        }
        if c < '0' || c > '9' {
            proof {
                assert(!is_digit(body[i - from]));
            }
            return None;
        }
        let d: u64 = (c as u8 - 48) as u64;
        proof {
            assert(d as nat == digit_val(body[i - from]));
        }
        if acc > (u64::MAX - d) / 10 {
            proof {
                lemma_digits_val_take_step(body, i - from);
                assert(digits_val(body.take(i - from + 1)) > u64::MAX) by {
                    assert(acc * 10 + d > u64::MAX) by (nonlinear_arith)
                        requires
                            acc > (u64::MAX - d) / 10,
                            d <= 9,
                    ;
                };
                lemma_digits_val_prefix_le(body, i - from + 1);
            }
            return None;
        }
        proof {
            lemma_digits_val_take_step(body, i - from);
            assert(acc * 10 + d <= u64::MAX) by (nonlinear_arith)
                requires
                    acc <= (u64::MAX - d) / 10,
                    d <= 9,
            ;
        }
        acc = acc * 10 + d;
        i = i + 1;
    }
    proof {
        lemma_digits_val_full(body);
        assert(body.take(n - from) =~= body);
    }
    Some(acc)
}

/// Parse `s` as an unsigned 64-bit integer: optional `+`, then digits.
pub fn parse_u64(s: &str) -> (r: Option<u64>)
    ensures
        r == parse_u64_spec(s@),
{
    let n = s.unicode_len();
    if n == 0 {
        return None;
    }
    let first = s.get_char(0);
    let start: usize = if first == '+' {
        1
    } else {
        0
    };
    proof {
        assert(unsigned_body(s@) == s@.skip(start as int));
    }
    parse_digits(s, start)
}

/// Parse `s` as a signed 64-bit integer: optional sign, then digits.
pub fn parse_i64(s: &str) -> (r: Option<i64>)
    ensures
        r == parse_i64_spec(s@),
{
    let n = s.unicode_len();
    if n == 0 {
        return None;
    }
    let first = s.get_char(0);
    let neg = first == '-';
    let start: usize = if neg || first == '+' {
        1
    } else {
        0
    };
    proof {
        assert(signed_body(s@) == s@.skip(start as int));
    }
    match parse_digits(s, start) {
        None => None,
        Some(mag) => {
            if neg {
                if mag > 9223372036854775808u64 {
                    None
                } else if mag == 9223372036854775808u64 {
                    Some(i64::MIN)
                } else {
                    Some(-(mag as i64))
                }
            } else {
                if mag > i64::MAX as u64 {
                    None
                } else {
                    Some(mag as i64)
                }
            }
        },
    }
}

/// Parse `s` as a boolean.
pub fn parse_bool(s: &str) -> (r: Option<bool>)
    ensures
        r == parse_bool_spec(s@),
{
    if crate::text::str_eq(s, "true") {
        Some(true)
    } else if crate::text::str_eq(s, "false") {
        Some(false)
    } else {
        None
    }
}

/// Parse `s` as a single character.
pub fn parse_char(s: &str) -> (r: Option<char>)
    ensures
        r == parse_char_spec(s@),
{
    if s.unicode_len() == 1 {
        Some(s.get_char(0))
    } else {
        None
    }
}

/// Relies on `char`'s `Display` implementation: formatting a character
/// writes exactly that character.
#[verifier::external_body]
fn char_to_string(c: char) -> (r: String)
    ensures
        r@ == seq![c],
{
    c.to_string()
}

/// Render `n` in base ten.
pub fn u64_to_string(n: u64) -> (r: String)
    ensures
        r@ == dec_str(n as nat),
    decreases n,
{
    if n < 10 {
        char_to_string((n as u8 + 48) as char)
    } else {
        let mut s = u64_to_string(n / 10);
        let d = char_to_string(((n % 10) as u8 + 48) as char);
        s.append(d.as_str());
        proof {
            assert(s@ =~= dec_str(n as nat));
        }
        s
    }
}

} // verus!
