//! The values held by registers, pushed on the stack and passed to procedures.

use vstd::prelude::*;

verus! {

broadcast use vstd::std_specs::vec::group_vec_axioms;

/// `m / 10^s` in lowest terms: strip the trailing zero digits of `m`
/// while the scale allows it.
pub open spec fn normalize(m: int, s: nat) -> (int, nat)
    decreases s,
{
    if s > 0 && m % 10 == 0 {
        normalize(m / 10, (s - 1) as nat)
    } else {
        (m, s)
    }
}

/// A decimal number `mantissa / 10^scale`.
///
/// The constructors keep it in lowest terms (see `wf`), so two numbers are
/// numerically equal exactly when their fields are equal.
#[derive(Debug, Clone, Copy, PartialEq, Eq, Structural)]
pub struct Number {
    pub mantissa: i64,
    pub scale: u32,
}

impl Number {
    /// In lowest terms: no trailing zero digit behind the decimal point.
    pub open spec fn wf(&self) -> bool {
        self.scale == 0 || self.mantissa % 10 != 0
    }

    /// The number `mantissa / 10^scale`, brought to lowest terms.
    pub fn new(mantissa: i64, scale: u32) -> (r: Number)
        ensures
            r.wf(),
            (r.mantissa as int, r.scale as nat) == normalize(mantissa as int, scale as nat),
    {
        let mut m = mantissa;
        let mut s = scale;
        while s > 0 && m % 10 == 0
            invariant
                normalize(m as int, s as nat) == normalize(mantissa as int, scale as nat),
            decreases s,
        {
            m = m / 10;
            s = s - 1;
        }
        Number { mantissa: m, scale: s }
    }

    /// The integer `n` as a number.
    pub fn from_int(n: i64) -> (r: Number)
        ensures
            r.wf(),
            r.mantissa == n,
            r.scale == 0,
    {
        Number { mantissa: n, scale: 0 }
    }
}

/// A primitive procedure as the machine sees it: a name and the least number
/// of arguments it takes. What it computes lives with the host that runs it.
#[derive(Debug)]
pub struct Procedure {
    pub name: String,
    pub min_arg_num: usize,
}

impl Procedure {
    pub fn new(name: &str, num: usize) -> (r: Procedure)
        ensures
            r.name@ == name@,
            r.min_arg_num == num,
    {
        Procedure { name: name.to_string(), min_arg_num: num }
    }

    /// The same procedure under another name.
    pub fn duplicate(src: &Self, name: &str) -> (r: Procedure)
        ensures
            r.name@ == name@,
            r.min_arg_num == src.min_arg_num,
    {
        Procedure { name: name.to_string(), min_arg_num: src.min_arg_num }
    }

    pub fn get_name(&self) -> (r: String)
        ensures
            r@ == self.name@,
    {
        self.name.clone()
    }

    pub fn get_arg_num(&self) -> (r: usize)
        ensures
            r == self.min_arg_num,
    {
        self.min_arg_num
    }
}

impl Clone for Procedure {
    fn clone(&self) -> (r: Self)
        ensures
            r.name@ == self.name@,
            r.min_arg_num == self.min_arg_num,
    {
        Procedure { name: self.name.clone(), min_arg_num: self.min_arg_num }
    }
}

impl PartialEq for Procedure {
    fn eq(&self, other: &Self) -> (r: bool) {
        self.name == other.name && self.min_arg_num == other.min_arg_num
    }
}

impl vstd::std_specs::cmp::PartialEqSpecImpl for Procedure {
    open spec fn obeys_eq_spec() -> bool {
        true
    }

    open spec fn eq_spec(&self, other: &Procedure) -> bool {
        self.name@ == other.name@ && self.min_arg_num == other.min_arg_num
    }
}

/// A value the machine stores and passes around.
#[derive(Debug)]
pub enum Value {
    Num(Number),
    Symbol(String),
    String(String),
    Boolean(bool),
    List(Vec<Value>),
    Nil,
    Pointer(usize),
    Procedure(Procedure),
}

/// The mathematical content of a `Value`.
pub enum ValueModel {
    Num(Number),
    Symbol(Seq<char>),
    String(Seq<char>),
    Boolean(bool),
    List(Seq<ValueModel>),
    Nil,
    Pointer(nat),
    Procedure(Seq<char>, nat),
}

impl Value {
    pub open spec fn model(&self) -> ValueModel
        decreases self,
    {
        match self {
            Value::Num(n) => ValueModel::Num(*n),
            Value::Symbol(s) => ValueModel::Symbol(s@),
            Value::String(s) => ValueModel::String(s@),
            Value::Boolean(b) => ValueModel::Boolean(*b),
            Value::List(items) => ValueModel::List(
                Seq::new(
                    items.len() as nat,
                    |i: int|
                        if 0 <= i < items.len() {
                            items[i].model()
                        } else {
                            ValueModel::Nil
                        },
                ),
            ),
            Value::Nil => ValueModel::Nil,
            Value::Pointer(p) => ValueModel::Pointer(*p as nat),
            Value::Procedure(p) => ValueModel::Procedure(p.name@, p.min_arg_num as nat),
        }
    }

    /// The models of a list of values, element by element.
    pub open spec fn models(items: Seq<Value>) -> Seq<ValueModel> {
        Seq::new(items.len(), |i: int| items[i].model())
    }

    pub proof fn lemma_list_model(items: Vec<Value>)
        ensures
            Value::List(items).model() == ValueModel::List(Value::models(items@)),
    {
        assert(Value::List(items).model()->List_0 =~= Value::models(items@));
    }

    /// A deep copy, equal in content.
    pub fn copy(&self) -> (r: Value)
        ensures
            r.model() == self.model(),
        decreases self,
    {
        match self {
            Value::Num(n) => Value::Num(*n),
            Value::Symbol(s) => Value::Symbol(s.clone()),
            Value::String(s) => Value::String(s.clone()),
            Value::Boolean(b) => Value::Boolean(*b),
            Value::List(items) => {
                let out = copy_values(items);
                proof {
                    Value::lemma_list_model(out);
                    Value::lemma_list_model(*items);
                }
                Value::List(out)
            },
            Value::Nil => Value::Nil,
            Value::Pointer(p) => Value::Pointer(*p),
            Value::Procedure(p) => Value::Procedure(p.clone()),
        }
    }

    /// Content equality; procedures compare by name and arity.
    pub fn equals(&self, other: &Value) -> (r: bool)
        ensures
            r == (self.model() == other.model()),
        decreases self,
    {
        match (self, other) {
            (Value::Num(a), Value::Num(b)) => a.mantissa == b.mantissa && a.scale == b.scale,
            (Value::Symbol(a), Value::Symbol(b)) => *a == *b,
            (Value::String(a), Value::String(b)) => *a == *b,
            (Value::Boolean(a), Value::Boolean(b)) => *a == *b,
            (Value::List(a), Value::List(b)) => {
                proof {
                    Value::lemma_list_model(*a);
                    Value::lemma_list_model(*b);
                }
                if a.len() != b.len() {
                    proof {
                        assert(Value::models(a@).len() != Value::models(b@).len());
                    }
                    return false;
                }
                let mut i: usize = 0;
                while i < a.len()
                    invariant
                        i <= a.len() == b.len(),
                        *self == Value::List(*a),
                        self.model() == ValueModel::List(Value::models(a@)),
                        other.model() == ValueModel::List(Value::models(b@)),
                        forall|j: int| 0 <= j < i ==> a[j].model() == b[j].model(),
                    decreases a.len() - i,
                {
                    proof {
                        assert(decreases_to!(*self => (*self)->List_0));
                    }
                    if !a[i].equals(&b[i]) {
                        proof {
                            assert(Value::models(a@)[i as int] != Value::models(b@)[i as int]);
                        }
                        return false;
                    }
                    i += 1;
                }
                proof {
                    assert(Value::models(a@) =~= Value::models(b@));
                }
                true
            },
            (Value::Nil, Value::Nil) => true,
            (Value::Pointer(a), Value::Pointer(b)) => *a == *b,
            (Value::Procedure(a), Value::Procedure(b)) => a.name == b.name && a.min_arg_num
                == b.min_arg_num,
            _ => false,
        }
    }
}

impl Value {
    pub fn zero() -> (r: Value)
        ensures
            r.model() == ValueModel::Num(Number { mantissa: 0, scale: 0 }),
    {
        Value::Num(Number::from_int(0))
    }

    pub fn one() -> (r: Value)
        ensures
            r.model() == ValueModel::Num(Number { mantissa: 1, scale: 0 }),
    {
        Value::Num(Number::from_int(1))
    }

    pub fn nil() -> (r: Value)
        ensures
            r.model() == ValueModel::Nil,
    {
        Value::Nil
    }

    pub fn empty_list() -> (r: Value)
        ensures
            r.model() == ValueModel::List(Seq::empty()),
    {
        let r = Value::List(Vec::new());
        proof {
            assert(r.model()->List_0 =~= Seq::<ValueModel>::empty());
        }
        r
    }

    /// A number equal to the integer `num`.
    pub fn eq_num(&self, num: i64) -> (r: bool)
        ensures
            r == (self.model() == ValueModel::Num(Number { mantissa: num, scale: 0 })),
    {
        match self {
            Value::Num(n) => n.mantissa == num && n.scale == 0,
            _ => false,
        }
    }

    pub fn eq_pointer(&self, num: usize) -> (r: bool)
        ensures
            r == (self.model() == ValueModel::Pointer(num as nat)),
    {
        match self {
            Value::Pointer(p) => *p == num,
            _ => false,
        }
    }

    pub fn is_num(&self) -> (r: bool)
        ensures
            r == self.model() is Num,
    {
        matches!(self, Value::Num(_))
    }

    pub fn is_symbol(&self) -> (r: bool)
        ensures
            r == self.model() is Symbol,
    {
        matches!(self, Value::Symbol(_))
    }

    pub fn is_string(&self) -> (r: bool)
        ensures
            r == self.model() is String,
    {
        matches!(self, Value::String(_))
    }

    pub fn is_pointer(&self) -> (r: bool)
        ensures
            r == self.model() is Pointer,
    {
        matches!(self, Value::Pointer(_))
    }

    pub fn is_bool(&self) -> (r: bool)
        ensures
            r == self.model() is Boolean,
    {
        matches!(self, Value::Boolean(_))
    }

    pub fn is_true(&self) -> (r: bool)
        ensures
            r == (self.model() == ValueModel::Boolean(true)),
    {
        matches!(self, Value::Boolean(true))
    }

    pub fn is_false(&self) -> (r: bool)
        ensures
            r == (self.model() == ValueModel::Boolean(false)),
    {
        matches!(self, Value::Boolean(false))
    }

    pub fn is_nil(&self) -> (r: bool)
        ensures
            r == self.model() is Nil,
    {
        matches!(self, Value::Nil)
    }

    pub fn is_list(&self) -> (r: bool)
        ensures
            r == self.model() is List,
    {
        matches!(self, Value::List(_))
    }

    pub fn is_empty_list(&self) -> (r: bool)
        ensures
            r == (self.model() == ValueModel::List(Seq::empty())),
    {
        match self {
            Value::List(l) => {
                proof {
                    Value::lemma_list_model(*l);
                    if l.len() == 0 {
                        assert(Value::models(l@) =~= Seq::<ValueModel>::empty());
                    } else {
                        assert(Value::models(l@).len() != Seq::<ValueModel>::empty().len());
                    }
                }
                l.len() == 0
            },
            _ => false,
        }
    }

    pub fn is_procedure(&self) -> (r: bool)
        ensures
            r == self.model() is Procedure,
    {
        matches!(self, Value::Procedure(_))
    }
}

/// Deep copies of each value, in order.
pub fn copy_values(items: &Vec<Value>) -> (r: Vec<Value>)
    ensures
        Value::models(r@) == Value::models(items@),
    decreases items@,
{
    let mut out: Vec<Value> = Vec::new();
    let mut i: usize = 0;
    while i < items.len()
        invariant
            i <= items.len(),
            out.len() == i,
            forall|j: int| 0 <= j < i ==> out[j].model() == items[j].model(),
        decreases items.len() - i,
    {
        proof {
            assert(decreases_to!(items@ => items@[i as int]));
        }
        let c = items[i].copy();
        out.push(c);
        i += 1;
    }
    proof {
        assert(Value::models(out@) =~= Value::models(items@));
    }
    out
}

impl Clone for Value {
    fn clone(&self) -> (r: Self)
        ensures
            r.model() == self.model(),
    {
        self.copy()
    }
}

impl PartialEq for Value {
    fn eq(&self, other: &Self) -> (r: bool) {
        self.equals(other)
    }
}

impl vstd::std_specs::cmp::PartialEqSpecImpl for Value {
    open spec fn obeys_eq_spec() -> bool {
        true
    }

    open spec fn eq_spec(&self, other: &Value) -> bool {
        self.model() == other.model()
    }
}

} // verus!
