//! A reader for the register machine language: text to data, and data to
//! instructions.

use std::sync::Arc;
use vstd::prelude::*;
use crate::syntax::{
    assign_source, atom_datum, const_form, digits_end, digits_value, instruction, is_digit,
    keyword_instruction, label_form, named_form, op_arg, op_form, parse_text, program, read_datum,
    read_items, read_text, reg_form, trim_zeros, Datum, NodeModel, RMLParseError,
};
use crate::text::{
    atom_end_at, chars_of, digits_end_at, is_word, is_symbol_character, skip_blank_at, string_end_at,
    string_of,
};
use crate::value::Number;

verus! {

broadcast use vstd::std_specs::vec::group_vec_axioms;

/// RML Value: a literal as it was read.
#[derive(Debug, PartialEq)]
pub enum RMLValue {
    Float(Number),
    Num(i32),
    List(Vec<RMLValue>),
    Str(String),
    Symbol(String),
}

impl RMLValue {
    pub open spec fn datum(&self) -> Datum
        decreases self,
    {
        match self {
            RMLValue::Float(n) => Datum::Float(*n),
            RMLValue::Num(n) => Datum::Num(*n as int),
            RMLValue::List(items) => Datum::List(
                Seq::new(
                    items.len() as nat,
                    |i: int|
                        if 0 <= i < items.len() {
                            items[i].datum()
                        } else {
                            Datum::Num(0)
                        },
                ),
            ),
            RMLValue::Str(s) => Datum::Str(s@),
            RMLValue::Symbol(s) => Datum::Symbol(s@),
        }
    }

    pub open spec fn data(items: Seq<RMLValue>) -> Seq<Datum> {
        Seq::new(items.len(), |i: int| items[i].datum())
    }

    pub proof fn lemma_list_datum(items: Vec<RMLValue>)
        ensures
            RMLValue::List(items).datum() == Datum::List(RMLValue::data(items@)),
    {
        assert(RMLValue::List(items).datum()->List_0 =~= RMLValue::data(items@));
    }

    /// A deep copy, equal in content.
    pub fn copy(&self) -> (r: RMLValue)
        ensures
            r.datum() == self.datum(),
        decreases self,
    {
        match self {
            RMLValue::Float(n) => RMLValue::Float(*n),
            RMLValue::Num(n) => RMLValue::Num(*n),
            RMLValue::List(items) => {
                let out = copy_rml_values(items);
                proof {
                    RMLValue::lemma_list_datum(out);
                    RMLValue::lemma_list_datum(*items);
                }
                RMLValue::List(out)
            },
            RMLValue::Str(s) => RMLValue::Str(s.clone()),
            RMLValue::Symbol(s) => RMLValue::Symbol(s.clone()),
        }
    }
}

/// Deep copies of each literal, in order.
pub fn copy_rml_values(items: &Vec<RMLValue>) -> (r: Vec<RMLValue>)
    ensures
        RMLValue::data(r@) == RMLValue::data(items@),
    decreases items@,
{
    let mut out: Vec<RMLValue> = Vec::new();
    let mut i: usize = 0;
    while i < items.len()
        invariant
            i <= items.len(),
            out.len() == i,
            forall|j: int| 0 <= j < i ==> out[j].datum() == items[j].datum(),
        decreases items.len() - i,
    {
        proof {
            assert(decreases_to!(items@ => items@[i as int]));
        }
        let c = items[i].copy();
        out.push(c);
        i += 1;
    }
    proof {
        assert(RMLValue::data(out@) =~= RMLValue::data(items@));
    }
    out
}

impl Clone for RMLValue {
    fn clone(&self) -> (r: Self)
        ensures
            r.datum() == self.datum(),
    {
        self.copy()
    }
}

pub proof fn lemma_digits_value_step(d: Seq<char>, k: int)
    requires
        0 <= k < d.len(),
    ensures
        digits_value(d.subrange(0, k + 1)) == digits_value(d.subrange(0, k)) * 10 + (d[k] as nat
            - '0' as nat) as nat,
{
    assert(d.subrange(0, k + 1).drop_last() =~= d.subrange(0, k));
}

pub proof fn lemma_digits_value_mono(d: Seq<char>, k: int, j: int)
    requires
        0 <= k <= j <= d.len(),
    ensures
        digits_value(d.subrange(0, k)) <= digits_value(d.subrange(0, j)),
    decreases j - k,
{
    if k < j {
        lemma_digits_value_mono(d, k, j - 1);
        lemma_digits_value_step(d, j - 1);
    }
}

/// The value of the digits `d`, when it is at most `bound`.
fn digits_value_upto(d: &Vec<char>, bound: u64) -> (r: Option<u64>)
    requires
        forall|i: int| 0 <= i < d.len() ==> is_digit(#[trigger] d[i]),
    ensures
        match r {
            Some(v) => v == digits_value(d@) && v <= bound,
            None => digits_value(d@) > bound,
        },
{
    let mut v: u64 = 0;
    let mut k: usize = 0;
    proof {
        assert(d@.subrange(0, 0) =~= Seq::<char>::empty());
    }
    while k < d.len()
        invariant
            k <= d.len(),
            forall|i: int| 0 <= i < d.len() ==> is_digit(#[trigger] d[i]),
            v == digits_value(d@.subrange(0, k as int)),
            v <= bound,
        decreases d.len() - k,
    {
        let c = d[k];
        let digit = (c as u32 - '0' as u32) as u64;
        let next: u128 = v as u128 * 10 + digit as u128;
        proof {
            lemma_digits_value_step(d@, k as int);
        }
        if next > bound as u128 {
            proof {
                lemma_digits_value_mono(d@, k as int + 1, d.len() as int);
                assert(d@.subrange(0, d.len() as int) =~= d@);
            }
            return None;
        }
        v = next as u64;
        k += 1;
    }
    proof {
        assert(d@.subrange(0, d.len() as int) =~= d@);
    }
    Some(v)
}

/// The characters `s[from..to]`.
fn sub_chars(s: &Vec<char>, from: usize, to: usize) -> (r: Vec<char>)
    requires
        from <= to <= s.len(),
    ensures
        r@ == s@.subrange(from as int, to as int),
{
    let mut out: Vec<char> = Vec::new();
    let mut i = from;
    while i < to
        invariant
            from <= i <= to <= s.len(),
            out@ == s@.subrange(from as int, i as int),
        decreases to - i,
    {
        out.push(s[i]);
        i += 1;
        proof {
            assert(out@ =~= s@.subrange(from as int, i as int));
        }
    }
    out
}

pub proof fn lemma_digits_end(s: Seq<char>, i: int)
    requires
        0 <= i <= s.len(),
    ensures
        i <= digits_end(s, i) <= s.len(),
        forall|k: int| i <= k < digits_end(s, i) ==> is_digit(#[trigger] s[k]),
    decreases s.len() - i,
{
    if 0 <= i < s.len() && is_digit(s[i]) {
        lemma_digits_end(s, i + 1);
    }
}

/// The end of the digits left when trailing zeros are dropped from `t[from..to]`.
fn trim_zeros_end(t: &Vec<char>, from: usize, to: usize) -> (r: usize)
    requires
        from <= to <= t.len(),
    ensures
        from <= r <= to,
        trim_zeros(t@.subrange(from as int, to as int)) == t@.subrange(from as int, r as int),
{
    let mut z = to;
    while z > from && t[z - 1] == '0'
        invariant
            from <= z <= to <= t.len(),
            trim_zeros(t@.subrange(from as int, to as int)) == trim_zeros(
                t@.subrange(from as int, z as int),
            ),
        decreases z,
    {
        proof {
            assert(t@.subrange(from as int, z as int).drop_last() =~= t@.subrange(
                from as int,
                z - 1,
            ));
        }
        z -= 1;
    }
    z
}

/// What the run of symbol characters `t` reads as.
fn read_atom(t: &Vec<char>) -> (r: Result<RMLValue, RMLParseError>)
    ensures
        match (r, atom_datum(t@)) {
            (Ok(v), Ok(d)) => v.datum() == d,
            (Err(e), Err(x)) => e == x,
            _ => false,
        },
{
    let sl: usize = if t.len() > 0 && t[0] == '-' {
        1
    } else {
        0
    };
    let e = digits_end_at(t, sl);
    proof {
        lemma_digits_end(t@, sl as int);
    }
    if e > sl && e == t.len() {
        let digits = sub_chars(t, sl, e);
        match digits_value_upto(&digits, 2147483648) {
            Some(v) => {
                let n: i64 = if sl == 1 {
                    -(v as i64)
                } else {
                    v as i64
                };
                if -2147483648 <= n && n <= 2147483647 {
                    Ok(RMLValue::Num(n as i32))
                } else {
                    Err(RMLParseError::BadNum)
                }
            },
            None => Err(RMLParseError::BadNum),
        }
    } else if e > sl && e < t.len() && t[e] == '.' {
        let f = digits_end_at(t, e + 1);
        proof {
            lemma_digits_end(t@, e + 1);
        }
        if f > e + 1 && f == t.len() {
            let z = trim_zeros_end(t, e + 1, f);
            let mut digits = sub_chars(t, sl, e);
            let frac = sub_chars(t, e + 1, z);
            let ghost int_digits = digits@;
            digits.append(&mut frac.clone());
            proof {
                assert(digits@ =~= t@.subrange(sl as int, e as int) + trim_zeros(
                    t@.subrange(e + 1, t.len() as int),
                ));
                assert forall|i: int| 0 <= i < digits.len() implies is_digit(#[trigger] digits[i]) by {
                    if i < int_digits.len() {
                        assert(digits[i] == t@[sl + i]);
                    } else {
                        assert(digits[i] == t@[e + 1 + i - int_digits.len()]);
                    }
                }
            }
            match digits_value_upto(&digits, 9223372036854775808) {
                Some(v) => {
                    let m: i128 = if sl == 1 {
                        -(v as i128)
                    } else {
                        v as i128
                    };
                    let scale = z - (e + 1);
                    if -9223372036854775808 <= m && m <= 9223372036854775807 && scale <= 4294967295 {
                        Ok(RMLValue::Float(Number { mantissa: m as i64, scale: scale as u32 }))
                    } else {
                        Err(RMLParseError::BadFloatPoint)
                    }
                },
                None => Err(RMLParseError::BadFloatPoint),
            }
        } else {
            let r = RMLValue::Symbol(string_of(t, 0, t.len()));
            proof {
                assert(t@.subrange(0, t.len() as int) =~= t@);
            }
            Ok(r)
        }
    } else {
        let r = RMLValue::Symbol(string_of(t, 0, t.len()));
        proof {
            assert(t@.subrange(0, t.len() as int) =~= t@);
        }
        Ok(r)
    }
}

/// `r` stands for the spec result `x`: the same data and position, or the same error.
pub open spec fn read_agrees(r: Result<(RMLValue, usize), RMLParseError>, x: Result<(Datum, int), RMLParseError>) -> bool {
    match (r, x) {
        (Ok((v, k)), Ok((d, kk))) => v.datum() == d && k == kk,
        (Err(e), Err(y)) => e == y,
        _ => false,
    }
}

/// Prepend `a` to the data of a successful read.
pub open spec fn prepend(a: Seq<Datum>, x: Result<(Seq<Datum>, int), RMLParseError>) -> Result<(Seq<Datum>, int), RMLParseError> {
    match x {
        Ok((ds, m)) => Ok((a + ds, m)),
        Err(e) => Err(e),
    }
}

/// Read one datum, after blanks, from position `i` of `s`.
pub fn read_datum_at(s: &Vec<char>, i: usize) -> (r: Result<(RMLValue, usize), RMLParseError>)
    requires
        i <= s.len(),
    ensures
        read_agrees(r, read_datum(s@, i as int)),
        r is Ok ==> r->Ok_0.1 <= s.len(),
    decreases s.len() - i, 0int,
{
    let j = skip_blank_at(s, i);
    if j >= s.len() {
        Err(RMLParseError::ParseFailure { position: j })
    } else if s[j] == '(' {
        match read_items_at(s, j + 1) {
            Ok((items, k)) => {
                proof {
                    RMLValue::lemma_list_datum(items);
                }
                Ok((RMLValue::List(items), k))
            },
            Err(e) => Err(e),
        }
    } else if s[j] == '"' {
        let e = string_end_at(s, j + 1);
        if e < s.len() && s[e] == '"' {
            Ok((RMLValue::Str(string_of(s, j + 1, e)), e + 1))
        } else {
            Err(RMLParseError::ParseFailure { position: e })
        }
    } else if is_symbol_character(s[j]) {
        let e = atom_end_at(s, j);
        let t = sub_chars(s, j, e);
        match read_atom(&t) {
            Ok(v) => Ok((v, e)),
            Err(x) => Err(x),
        }
    } else {
        Err(RMLParseError::ParseFailure { position: j })
    }
}

/// Read the data of a list, from position `i` of `s` up to and including its
/// closing parenthesis.
pub fn read_items_at(s: &Vec<char>, i: usize) -> (r: Result<(Vec<RMLValue>, usize), RMLParseError>)
    requires
        i <= s.len(),
    ensures
        match (r, read_items(s@, i as int)) {
            (Ok((vs, k)), Ok((ds, kk))) => RMLValue::data(vs@) == ds && k == kk && k <= s.len(),
            (Err(e), Err(y)) => e == y,
            _ => false,
        },
    decreases s.len() - i, 1int,
{
    let mut out: Vec<RMLValue> = Vec::new();
    let mut k = i;
    loop
        invariant
            i <= k <= s.len(),
            read_items(s@, i as int) == prepend(RMLValue::data(out@), read_items(s@, k as int)),
        decreases s.len() - k,
    {
        let j = skip_blank_at(s, k);
        if j < s.len() && s[j] == ')' {
            proof {
                assert(RMLValue::data(out@) + Seq::<Datum>::empty() =~= RMLValue::data(out@));
            }
            return Ok((out, j + 1));
        }
        match read_datum_at(s, j) {
            Ok((v, next)) => {
                if !(j < next) {
                    return Err(RMLParseError::ParseFailure { position: j });
                }
                let ghost before = out@;
                proof {
                    let d = v.datum();
                    match read_items(s@, next as int) {
                        Ok((ds, m)) => {
                            assert(RMLValue::data(before) + (seq![d] + ds) =~= RMLValue::data(before.push(v)) + ds);
                        },
                        Err(_) => {},
                    }
                }
                out.push(v);
                k = next;
            },
            Err(e) => {
                return Err(e);
            },
        }
    }
}

/// Read the whole text as one datum, blanks and comments aside.
pub fn rml_value(input: &str) -> (r: Result<RMLValue, RMLParseError>)
    ensures
        match (r, read_text(input@)) {
            (Ok(v), Ok(d)) => v.datum() == d,
            (Err(e), Err(y)) => e == y,
            _ => false,
        },
{
    let s = chars_of(input);
    match read_datum_at(&s, 0) {
        Ok((v, k)) => {
            let e = skip_blank_at(&s, k);
            if e == s.len() {
                Ok(v)
            } else {
                Err(RMLParseError::ParseFailure { position: e })
            }
        },
        Err(e) => Err(e),
    }
}

/// RML Syntax Tree
#[derive(Debug, PartialEq)]
pub enum RMLNode {
    Assignment(String, Arc<RMLNode>),
    Branch(Arc<RMLNode>),
    Constant(RMLValue),
    GotoLabel(Arc<RMLNode>),
    Label(String),
    List(Vec<RMLValue>),
    Operation(String, Vec<RMLNode>),
    PerformOp(Arc<RMLNode>),
    Reg(String),
    Restore(String),
    Save(String),
    Symbol(String),
    TestOp(Arc<RMLNode>),
}

impl RMLNode {
    pub open spec fn model(&self) -> NodeModel
        decreases self,
    {
        match self {
            RMLNode::Assignment(r, v) => NodeModel::Assignment(r@, Box::new((**v).model())),
            RMLNode::Branch(l) => NodeModel::Branch(Box::new((**l).model())),
            RMLNode::Constant(v) => NodeModel::Constant(v.datum()),
            RMLNode::GotoLabel(l) => NodeModel::GotoLabel(Box::new((**l).model())),
            RMLNode::Label(l) => NodeModel::Label(l@),
            RMLNode::List(items) => NodeModel::List(RMLValue::List(*items).datum()->List_0),
            RMLNode::Operation(name, args) => NodeModel::Operation(
                name@,
                Seq::new(
                    args.len() as nat,
                    |i: int|
                        if 0 <= i < args.len() {
                            args[i].model()
                        } else {
                            NodeModel::Label(Seq::empty())
                        },
                ),
            ),
            RMLNode::PerformOp(op) => NodeModel::PerformOp(Box::new((**op).model())),
            RMLNode::Reg(r) => NodeModel::Reg(r@),
            RMLNode::Restore(r) => NodeModel::Restore(r@),
            RMLNode::Save(r) => NodeModel::Save(r@),
            RMLNode::Symbol(s) => NodeModel::Symbol(s@),
            RMLNode::TestOp(op) => NodeModel::TestOp(Box::new((**op).model())),
        }
    }

    pub open spec fn models(nodes: Seq<RMLNode>) -> Seq<NodeModel> {
        Seq::new(nodes.len(), |i: int| nodes[i].model())
    }

    /// A deep copy, equal in content.
    pub fn copy(&self) -> (r: RMLNode)
        ensures
            r.model() == self.model(),
        decreases self,
    {
        match self {
            RMLNode::Assignment(reg, v) => {
                proof {
                    assert(decreases_to!(*self => **v));
                }
                RMLNode::Assignment(reg.clone(), Arc::new(v.copy()))
            },
            RMLNode::Branch(l) => {
                proof {
                    assert(decreases_to!(*self => **l));
                }
                RMLNode::Branch(Arc::new(l.copy()))
            },
            RMLNode::Constant(v) => RMLNode::Constant(v.copy()),
            RMLNode::GotoLabel(l) => {
                proof {
                    assert(decreases_to!(*self => **l));
                }
                RMLNode::GotoLabel(Arc::new(l.copy()))
            },
            RMLNode::Label(l) => RMLNode::Label(l.clone()),
            RMLNode::List(items) => {
                let out = copy_rml_values(items);
                proof {
                    RMLValue::lemma_list_datum(out);
                    RMLValue::lemma_list_datum(*items);
                }
                RMLNode::List(out)
            },
            RMLNode::Operation(name, args) => {
                let mut out: Vec<RMLNode> = Vec::new();
                let mut i: usize = 0;
                while i < args.len()
                    invariant
                        i <= args.len(),
                        *self == RMLNode::Operation(*name, *args),
                        out.len() == i,
                        forall|j: int| 0 <= j < i ==> #[trigger] out[j].model() == args[j].model(),
                    decreases args.len() - i,
                {
                    proof {
                        assert(decreases_to!(*self => (*self)->Operation_1));
                    }
                    out.push(args[i].copy());
                    i += 1;
                }
                proof {
                    RMLNode::lemma_operation_model(*name, out);
                    RMLNode::lemma_operation_model(*name, *args);
                    assert(RMLNode::models(out@) =~= RMLNode::models(args@));
                }
                RMLNode::Operation(name.clone(), out)
            },
            RMLNode::PerformOp(op) => {
                proof {
                    assert(decreases_to!(*self => **op));
                }
                RMLNode::PerformOp(Arc::new(op.copy()))
            },
            RMLNode::Reg(r) => RMLNode::Reg(r.clone()),
            RMLNode::Restore(r) => RMLNode::Restore(r.clone()),
            RMLNode::Save(r) => RMLNode::Save(r.clone()),
            RMLNode::Symbol(s) => RMLNode::Symbol(s.clone()),
            RMLNode::TestOp(op) => {
                proof {
                    assert(decreases_to!(*self => **op));
                }
                RMLNode::TestOp(Arc::new(op.copy()))
            },
        }
    }

    pub proof fn lemma_operation_model(name: String, args: Vec<RMLNode>)
        ensures
            RMLNode::Operation(name, args).model() == NodeModel::Operation(
                name@,
                RMLNode::models(args@),
            ),
    {
        assert(RMLNode::Operation(name, args).model()->Operation_1 =~= RMLNode::models(args@));
    }
}

impl Clone for RMLNode {
    fn clone(&self) -> (r: Self)
        ensures
            r.model() == self.model(),
    {
        self.copy()
    }
}

/// `(<keyword> <symbol>)`: the symbol's name.
fn named_form_of(d: &RMLValue, keyword: &str) -> (r: Option<String>)
    ensures
        match (r, named_form(d.datum(), keyword@)) {
            (Some(n), Some(m)) => n@ == m,
            (None, None) => true,
            _ => false,
        },
{
    match d {
        RMLValue::List(items) => {
            proof {
                RMLValue::lemma_list_datum(*items);
            }
            if items.len() == 2 {
                match (&items[0], &items[1]) {
                    (RMLValue::Symbol(k), RMLValue::Symbol(n)) => {
                        if is_word(k, keyword) {
                            Some(n.clone())
                        } else {
                            None
                        }
                    },
                    _ => None,
                }
            } else {
                None
            }
        },
        _ => None,
    }
}

/// `n` stands for the spec instruction `m`.
pub open spec fn node_agrees(n: Option<RMLNode>, m: Option<NodeModel>) -> bool {
    match (n, m) {
        (Some(a), Some(b)) => a.model() == b,
        (None, None) => true,
        _ => false,
    }
}

fn const_form_of(d: &RMLValue) -> (r: Option<RMLNode>)
    ensures
        node_agrees(r, const_form(d.datum())),
{
    match d {
        RMLValue::List(items) => {
            proof {
                RMLValue::lemma_list_datum(*items);
            }
            if items.len() == 2 {
                match &items[0] {
                    RMLValue::Symbol(k) => {
                        if is_word(k, "const") {
                            Some(RMLNode::Constant(items[1].copy()))
                        } else {
                            None
                        }
                    },
                    _ => None,
                }
            } else {
                None
            }
        },
        _ => None,
    }
}

fn reg_form_of(d: &RMLValue) -> (r: Option<RMLNode>)
    ensures
        node_agrees(r, reg_form(d.datum())),
{
    match named_form_of(d, "reg") {
        Some(n) => Some(RMLNode::Reg(n)),
        None => None,
    }
}

fn label_form_of(d: &RMLValue) -> (r: Option<RMLNode>)
    ensures
        node_agrees(r, label_form(d.datum())),
{
    match named_form_of(d, "label") {
        Some(n) => Some(RMLNode::Label(n)),
        None => None,
    }
}

fn op_arg_of(d: &RMLValue) -> (r: Option<RMLNode>)
    ensures
        node_agrees(r, op_arg(d.datum())),
{
    match const_form_of(d) {
        Some(n) => Some(n),
        None => reg_form_of(d),
    }
}

/// `(op <name>) <arg> ...` laid out in `items[from..]`.
fn op_form_of(items: &Vec<RMLValue>, from: usize) -> (r: Option<RMLNode>)
    requires
        from <= items.len(),
    ensures
        node_agrees(r, op_form(RMLValue::data(items@).subrange(from as int, items.len() as int))),
{
    let ghost ds = RMLValue::data(items@).subrange(from as int, items.len() as int);
    if from >= items.len() {
        return None;
    }
    let name = match named_form_of(&items[from], "op") {
        Some(n) => n,
        None => {
            return None;
        },
    };
    let mut args: Vec<RMLNode> = Vec::new();
    let mut i = from + 1;
    while i < items.len()
        invariant
            from < i <= items.len(),
            ds == RMLValue::data(items@).subrange(from as int, items.len() as int),
            args.len() == i - from - 1,
            forall|j: int| 1 <= j < i - from ==> #[trigger] op_arg(ds[j]) is Some,
            forall|j: int|
                0 <= j < args.len() ==> args[j].model() == op_arg(ds[j + 1])->Some_0,
        decreases items.len() - i,
    {
        match op_arg_of(&items[i]) {
            Some(a) => {
                args.push(a);
            },
            None => {
                proof {
                    assert(ds[i - from] == items[i as int].datum());
                    assert(op_arg(ds[i - from]) is None);
                }
                return None;
            },
        }
        i += 1;
    }
    proof {
        RMLNode::lemma_operation_model(name, args);
        assert(RMLNode::models(args@) =~= Seq::new(
            (ds.len() - 1) as nat,
            |j: int| op_arg(ds[j + 1])->Some_0,
        ));
    }
    Some(RMLNode::Operation(name, args))
}

/// The value of an assignment, laid out in `items[from..]`.
fn assign_source_of(items: &Vec<RMLValue>, from: usize) -> (r: Option<RMLNode>)
    requires
        from <= items.len(),
    ensures
        node_agrees(r, assign_source(RMLValue::data(items@).subrange(from as int, items.len() as int))),
{
    let ghost ds = RMLValue::data(items@).subrange(from as int, items.len() as int);
    if items.len() - from == 1 {
        proof {
            assert(ds[0] == items[from as int].datum());
        }
        if let Some(n) = const_form_of(&items[from]) {
            return Some(n);
        }
        if let Some(n) = reg_form_of(&items[from]) {
            return Some(n);
        }
        if let Some(n) = label_form_of(&items[from]) {
            return Some(n);
        }
    }
    op_form_of(items, from)
}

/// A list that is one of the keyword forms, as that instruction.
fn keyword_instruction_of(items: &Vec<RMLValue>) -> (r: Option<RMLNode>)
    ensures
        node_agrees(r, keyword_instruction(RMLValue::data(items@))),
{
    let ghost ds = RMLValue::data(items@);
    if items.len() == 0 {
        return None;
    }
    let k = match &items[0] {
        RMLValue::Symbol(k) => k,
        _ => {
            return None;
        },
    };
    proof {
        assert(ds[0] == items[0].datum());
        assert(ds.subrange(1, ds.len() as int) =~= RMLValue::data(items@).subrange(1, items.len() as int));
        RMLValue::lemma_list_datum(*items);
        assert(RMLValue::List(*items).datum() == Datum::List(ds));
    }
    if is_word(k, "assign") {
        if items.len() >= 3 {
            if let RMLValue::Symbol(target) = &items[1] {
                proof {
                    assert(ds[1] == items[1].datum());
                }
                return match assign_source_of(items, 2) {
                    Some(v) => Some(RMLNode::Assignment(target.clone(), Arc::new(v))),
                    None => None,
                };
            }
        }
        None
    } else if is_word(k, "branch") {
        if items.len() == 2 {
            match label_form_of(&items[1]) {
                Some(l) => Some(RMLNode::Branch(Arc::new(l))),
                None => None,
            }
        } else {
            None
        }
    } else if is_word(k, "goto") {
        if items.len() == 2 {
            match label_form_of(&items[1]) {
                Some(l) => Some(RMLNode::GotoLabel(Arc::new(l))),
                None => match reg_form_of(&items[1]) {
                    Some(l) => Some(RMLNode::GotoLabel(Arc::new(l))),
                    None => None,
                },
            }
        } else {
            None
        }
    } else if is_word(k, "save") || is_word(k, "restore") {
        if items.len() == 2 {
            if let RMLValue::Symbol(reg) = &items[1] {
                proof {
                    assert(ds[1] == items[1].datum());
                }
                if is_word(k, "save") {
                    return Some(RMLNode::Save(reg.clone()));
                } else {
                    return Some(RMLNode::Restore(reg.clone()));
                }
            }
        }
        None
    } else if is_word(k, "test") {
        match op_form_of(items, 1) {
            Some(op) => Some(RMLNode::TestOp(Arc::new(op))),
            None => None,
        }
    } else if is_word(k, "perform") {
        match op_form_of(items, 1) {
            Some(op) => Some(RMLNode::PerformOp(Arc::new(op))),
            None => None,
        }
    } else if is_word(k, "const") {
        let whole = RMLValue::List(copy_rml_values(items));
        proof {
            RMLValue::lemma_list_datum(whole->List_0);
        }
        const_form_of(&whole)
    } else if is_word(k, "reg") {
        let whole = RMLValue::List(copy_rml_values(items));
        proof {
            RMLValue::lemma_list_datum(whole->List_0);
        }
        reg_form_of(&whole)
    } else if is_word(k, "label") {
        let whole = RMLValue::List(copy_rml_values(items));
        proof {
            RMLValue::lemma_list_datum(whole->List_0);
        }
        label_form_of(&whole)
    } else {
        None
    }
}

/// A datum as an instruction.
fn instruction_of(d: &RMLValue) -> (r: Option<RMLNode>)
    ensures
        node_agrees(r, instruction(d.datum())),
{
    match d {
        RMLValue::Symbol(s) => Some(RMLNode::Symbol(s.clone())),
        RMLValue::List(items) => {
            proof {
                RMLValue::lemma_list_datum(*items);
            }
            match keyword_instruction_of(items) {
                Some(n) => Some(n),
                None => {
                    let r = RMLNode::List(copy_rml_values(items));
                    proof {
                        RMLValue::lemma_list_datum(r->List_0);
                    }
                    Some(r)
                },
            }
        },
        _ => None,
    }
}

/// A datum as a program.
fn program_of(d: &RMLValue) -> (r: Result<Vec<RMLNode>, RMLParseError>)
    ensures
        match (r, program(d.datum())) {
            (Ok(ns), Ok(ms)) => RMLNode::models(ns@) == ms,
            (Err(e), Err(y)) => e == y,
            _ => false,
        },
{
    if let RMLValue::List(items) = d {
        proof {
            RMLValue::lemma_list_datum(*items);
        }
        let ghost ds = RMLValue::data(items@);
        let mut out: Vec<RMLNode> = Vec::new();
        let mut i: usize = 0;
        let mut all = true;
        while i < items.len()
            invariant
                i <= items.len(),
                ds == RMLValue::data(items@),
                all ==> out.len() == i,
                all ==> forall|j: int| 0 <= j < i ==> #[trigger] instruction(ds[j]) is Some,
                all ==> forall|j: int|
                    0 <= j < i ==> out[j].model() == instruction(ds[j])->Some_0,
                !all ==> exists|j: int| 0 <= j < items.len() && #[trigger] instruction(ds[j]) is None,
            decreases items.len() - i,
        {
            if all {
                match instruction_of(&items[i]) {
                    Some(n) => {
                        out.push(n);
                    },
                    None => {
                        assert(instruction(ds[i as int]) is None);
                        all = false;
                    },
                }
            }
            i += 1;
        }
        if all {
            proof {
                assert(RMLNode::models(out@) =~= Seq::new(
                    ds.len(),
                    |j: int| instruction(ds[j])->Some_0,
                ));
            }
            return Ok(out);
        }
    }
    match instruction_of(d) {
        Some(n) => {
            let mut out: Vec<RMLNode> = Vec::new();
            out.push(n);
            proof {
                assert(RMLNode::models(out@) =~= seq![instruction(d.datum())->Some_0]);
            }
            Ok(out)
        },
        None => Err(RMLParseError::BadSymbol),
    }
}

/// Parse a controller text into its instructions and label declarations.
pub fn parse(input: &str) -> (r: Result<Vec<RMLNode>, RMLParseError>)
    ensures
        match (r, parse_text(input@)) {
            (Ok(ns), Ok(ms)) => RMLNode::models(ns@) == ms,
            (Err(e), Err(y)) => e == y,
            _ => false,
        },
{
    match rml_value(input) {
        Ok(d) => program_of(&d),
        Err(e) => Err(e),
    }
}

/// Parse a text that holds exactly one instruction.
pub fn rml_instruction(input: &str) -> (r: Result<RMLNode, RMLParseError>)
    ensures
        match (r, read_text(input@)) {
            (Ok(n), Ok(d)) => instruction(d) == Some(n.model()),
            (Err(e), Ok(d)) => instruction(d) is None && e == RMLParseError::BadSymbol,
            (Err(e), Err(y)) => e == y,
            _ => false,
        },
{
    match rml_value(input) {
        Ok(d) => match instruction_of(&d) {
            Some(n) => Ok(n),
            None => Err(RMLParseError::BadSymbol),
        },
        Err(e) => Err(e),
    }
}

} // verus!
