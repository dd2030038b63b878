//! Optional conversion: absence and nulls resolve to nothing, present
//! values convert, and a present value of the wrong shape is an error.

use cruct::resolve::{convert, DynValue, FieldTy};
use cruct::ConfigValue;

fn opt_string() -> FieldTy {
    FieldTy::Opt(Box::new(FieldTy::Str))
}

#[test]
fn test_some_string() {
    let val = ConfigValue::Value("hello".to_string());
    let parsed = convert(&opt_string(), &val, &vec![], &vec![]).unwrap();
    assert_eq!(parsed, DynValue::Str("hello".to_string()));
}

#[test]
fn test_none_from_null_value() {
    let val = ConfigValue::Null;
    let parsed = convert(&opt_string(), &val, &vec![], &vec![]).unwrap();
    assert_eq!(parsed, DynValue::Nothing);
}

#[test]
fn optional_mismatch_propagates() {
    let val = ConfigValue::Array(vec![]);
    let result = convert(&opt_string(), &val, &vec![], &vec![]);
    assert!(result.is_err());
}
