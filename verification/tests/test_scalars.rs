//! The scalar grammars: decimal integers with sign and width checks,
//! booleans, characters, and decimal rendering.

use cruct::resolve::{convert, DynValue, FieldTy};
use cruct::scalars::{parse_bool, parse_char, parse_i64, parse_u64, u64_to_string};
use cruct::ConfigValue;

#[test]
fn unsigned_parsing() {
    assert_eq!(parse_u64("0"), Some(0));
    assert_eq!(parse_u64("8080"), Some(8080));
    assert_eq!(parse_u64("+42"), Some(42));
    assert_eq!(parse_u64("18446744073709551615"), Some(u64::MAX));
    assert_eq!(parse_u64("18446744073709551616"), None);
    assert_eq!(parse_u64(""), None);
    assert_eq!(parse_u64("-1"), None);
    assert_eq!(parse_u64("1a"), None);
}

#[test]
fn signed_parsing() {
    assert_eq!(parse_i64("42"), Some(42));
    assert_eq!(parse_i64("-42"), Some(-42));
    assert_eq!(parse_i64("+7"), Some(7));
    assert_eq!(parse_i64("-9223372036854775808"), Some(i64::MIN));
    assert_eq!(parse_i64("9223372036854775807"), Some(i64::MAX));
    assert_eq!(parse_i64("9223372036854775808"), None);
    assert_eq!(parse_i64("-9223372036854775809"), None);
    assert_eq!(parse_i64("foo"), None);
}

#[test]
fn bool_and_char_parsing() {
    assert_eq!(parse_bool("true"), Some(true));
    assert_eq!(parse_bool("false"), Some(false));
    assert_eq!(parse_bool("True"), None);
    assert_eq!(parse_char("x"), Some('x'));
    assert_eq!(parse_char("xy"), None);
    assert_eq!(parse_char(""), None);
}

#[test]
fn decimal_rendering() {
    assert_eq!(u64_to_string(0), "0");
    assert_eq!(u64_to_string(8080), "8080");
    assert_eq!(u64_to_string(u64::MAX), "18446744073709551615");
}

#[test]
fn width_checks_in_conversion() {
    let v = ConfigValue::Value("300".to_string());
    assert!(convert(&FieldTy::U8, &v, &vec![], &vec![]).is_err());
    assert_eq!(
        convert(&FieldTy::U16, &v, &vec![], &vec![]).unwrap(),
        DynValue::UInt(300)
    );

    let neg = ConfigValue::Value("-42".to_string());
    assert!(convert(&FieldTy::U16, &neg, &vec![], &vec![]).is_err());
    assert_eq!(
        convert(&FieldTy::I8, &neg, &vec![], &vec![]).unwrap(),
        DynValue::Int(-42)
    );
    let low = ConfigValue::Value("-200".to_string());
    assert!(convert(&FieldTy::I8, &low, &vec![], &vec![]).is_err());
}

#[test]
fn mismatch_message_names_expected_type_and_value() {
    let v = ConfigValue::Value("foo".to_string());
    let err = convert(&FieldTy::U16, &v, &vec![], &vec![]).unwrap_err();
    assert_eq!(
        err.message(),
        "Type mismatch in field '': expected u16, found 'foo'"
    );
}
