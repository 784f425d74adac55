use reg_machine::convert::TryFromValue;
use reg_machine::errors::TypeError;
use reg_machine::value::{Number, Procedure, Value};

#[test]
fn test_value_constructor() {
    assert_eq!(Value::Num(Number::from_int(1)), Value::new(1));
    assert_eq!(Value::Num(Number::from_int(1)), Value::new(1i64));
    assert_eq!(Value::Boolean(true), Value::new(true));
    assert_eq!(Value::Boolean(false), Value::new(false));
    assert_eq!(Value::Symbol("test".into()), Value::new("test"));
    assert_eq!(Value::String("\"test\"".into()), Value::new(r#""test""#));
    assert_eq!(Value::Symbol("test".into()), Value::new(String::from("test")));
    assert_eq!(Value::List(Vec::<Value>::new()), Value::new(Vec::<Value>::new()));
    assert_eq!(Value::Nil, Value::new(()));
}

#[test]
fn test_try_from_value() {
    assert_eq!(Ok(false), <bool as TryFromValue>::try_from(&Value::new(false)));
    assert_eq!(Ok(true), <bool as TryFromValue>::try_from(&Value::Symbol("true".into())));
    assert_eq!(
        Err(TypeError::expected("Value::Boolean").got("Symbol maybe".to_string())),
        <bool as TryFromValue>::try_from(&Value::Symbol("maybe".into()))
    );
    assert_eq!(
        Err(TypeError::expected("Value::Boolean").got("3".to_string())),
        <bool as TryFromValue>::try_from(&Value::Num(Number::from_int(3)))
    );
    assert_eq!(Ok("test".to_string()), <String as TryFromValue>::try_from(&Value::new("test")));
    assert_eq!(Ok(Vec::<Value>::new()), <Vec<Value> as TryFromValue>::try_from(&Value::new(Vec::<Value>::new())));
    assert_eq!(Ok(Vec::<Value>::new()), <Vec<Value> as TryFromValue>::try_from(&Value::Nil));
    assert_eq!(Ok(vec![Value::one()]), <Vec<Value> as TryFromValue>::try_from(&Value::one()));
}

#[test]
fn test_eq_num() {
    assert!(Value::Num(Number::new(10, 1)).eq_num(1));
    assert!(Value::one().eq_num(1));
    assert!(!Value::Boolean(true).eq_num(1));
    assert!(Value::Pointer(3).eq_pointer(3));
    assert!(!Value::Pointer(3).eq_pointer(4));
}

#[test]
fn numbers_are_kept_in_lowest_terms() {
    assert_eq!(Number::new(1200, 2), Number { mantissa: 12, scale: 0 });
    assert_eq!(Number::new(-1250, 3), Number { mantissa: -125, scale: 2 });
    assert_eq!(Number::new(0, 5), Number { mantissa: 0, scale: 0 });
    assert_eq!(Value::Num(Number::new(20, 1)), Value::Num(Number::from_int(2)));
}

#[test]
fn value_predicates() {
    assert!(Value::zero().is_num());
    assert!(Value::nil().is_nil());
    assert!(Value::empty_list().is_empty_list());
    assert!(!Value::List(vec![Value::Nil]).is_empty_list());
    assert!(Value::List(vec![Value::Nil]).is_list());
    assert!(Value::Symbol("s".into()).is_symbol());
    assert!(Value::String("s".into()).is_string());
    assert!(Value::Pointer(0).is_pointer());
    assert!(Value::Boolean(false).is_bool());
    assert!(Value::Boolean(true).is_true());
    assert!(Value::Boolean(false).is_false());
    assert!(Value::Procedure(Procedure::new("p", 1)).is_procedure());
}

#[test]
fn values_compare_by_content() {
    let a = Value::List(vec![Value::one(), Value::Symbol("x".into())]);
    let b = Value::List(vec![Value::Num(Number::new(10, 1)), Value::Symbol("x".into())]);
    assert_eq!(a, b);
    assert_ne!(a, Value::List(vec![Value::one()]));
    assert_ne!(Value::Symbol("x".into()), Value::String("x".into()));
    assert_eq!(
        Value::Procedure(Procedure::new("p", 1)),
        Value::Procedure(Procedure::duplicate(&Procedure::new("q", 1), "p"))
    );
    assert_ne!(Value::Procedure(Procedure::new("p", 1)), Value::Procedure(Procedure::new("p", 2)));
}
