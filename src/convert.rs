//! Conversions between values and plain Rust data.

use vstd::prelude::*;
use crate::errors::TypeError;
use crate::render::value_text;
use crate::value::{Number, Value, ValueModel};

verus! {

/// Data that can become a value.
pub trait ToValue: Sized {
    fn to_value(self) -> Value;
}

/// Plain data, other than `Value` itself, that can become a value.
pub trait NonValue: ToValue {}

impl NonValue for bool {}

impl NonValue for i32 {}

impl NonValue for i64 {}

impl NonValue for String {}

impl NonValue for &str {}

impl NonValue for Vec<Value> {}

/// Data that a value can be read as.
pub trait TryFromValue: Sized {
    fn try_from(v: &Value) -> Result<Self, TypeError>;
}

impl Value {
    pub fn new<T: ToValue>(val: T) -> Value {
        val.to_value()
    }

    /// Text in double quotes is a string; any other text is a symbol.
    pub fn from_text(s: String) -> (r: Value)
        ensures
            s@.len() > 0 && s@[0] == '"' ==> r.model() == ValueModel::String(s@),
            !(s@.len() > 0 && s@[0] == '"') ==> r.model() == ValueModel::Symbol(s@),
    {
        let cs = crate::text::chars_of_string(&s);
        if cs.len() > 0 && cs[0] == '"' {
            Value::String(s)
        } else {
            Value::Symbol(s)
        }
    }

    /// A boolean, or the symbols `true` and `false`, as a boolean.
    pub fn to_bool(&self) -> (r: Result<bool, TypeError>)
        ensures
            match self.model() {
                ValueModel::Boolean(b) => r == Ok::<bool, TypeError>(b),
                ValueModel::Symbol(s) => if s == "true"@ {
                    r == Ok::<bool, TypeError>(true)
                } else if s == "false"@ {
                    r == Ok::<bool, TypeError>(false)
                } else {
                    r is Err && r->Err_0.expected@ == "Value::Boolean"@
                },
                _ => r is Err && r->Err_0.expected@ == "Value::Boolean"@ && r->Err_0.got
                    is Some && r->Err_0.got->Some_0@ == value_text(self.model()),
            },
    {
        let expected = TypeError::expected("Value::Boolean");
        match self {
            Value::Boolean(b) => Ok(*b),
            Value::Symbol(s) => {
                if crate::text::is_word(s, "true") {
                    Ok(true)
                } else if crate::text::is_word(s, "false") {
                    Ok(false)
                } else {
                    let mut got = String::new();
                    crate::assemble::append_str(&mut got, "Symbol ");
                    crate::assemble::append_str(&mut got, s.as_str());
                    Err(expected.got(got))
                }
            },
            _ => Err(expected.got(self.to_text())),
        }
    }

    /// The elements of a list; `Nil` is the empty list, any other value a
    /// list of itself.
    pub fn to_values(&self) -> (r: Vec<Value>)
        ensures
            match self.model() {
                ValueModel::List(items) => Value::models(r@) == items,
                ValueModel::Nil => r@.len() == 0,
                _ => r@.len() == 1 && r@[0].model() == self.model(),
            },
    {
        match self {
            Value::List(items) => {
                proof {
                    Value::lemma_list_model(*items);
                }
                crate::value::copy_values(items)
            },
            Value::Nil => Vec::new(),
            _ => {
                let mut v: Vec<Value> = Vec::new();
                v.push(self.copy());
                v
            },
        }
    }
}

impl ToValue for Value {
    fn to_value(self) -> Value {
        self
    }
}

impl ToValue for bool {
    fn to_value(self) -> Value {
        Value::Boolean(self)
    }
}

impl ToValue for i32 {
    fn to_value(self) -> Value {
        Value::Num(Number::from_int(self as i64))
    }
}

impl ToValue for i64 {
    fn to_value(self) -> Value {
        Value::Num(Number::from_int(self))
    }
}

impl ToValue for String {
    fn to_value(self) -> Value {
        Value::from_text(self)
    }
}

impl ToValue for &str {
    fn to_value(self) -> Value {
        Value::from_text(self.to_string())
    }
}

impl ToValue for Vec<Value> {
    fn to_value(self) -> Value {
        Value::List(self)
    }
}

impl ToValue for () {
    fn to_value(self) -> Value {
        Value::Nil
    }
}

impl TryFromValue for bool {
    fn try_from(v: &Value) -> Result<bool, TypeError> {
        v.to_bool()
    }
}

impl TryFromValue for String {
    fn try_from(v: &Value) -> Result<String, TypeError> {
        Ok(v.to_text())
    }
}

impl TryFromValue for Vec<Value> {
    fn try_from(v: &Value) -> Result<Vec<Value>, TypeError> {
        Ok(v.to_values())
    }
}

} // verus!
