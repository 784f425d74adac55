//! Text forms: literals and instructions written back in the register
//! machine language, and values written for display.

use vstd::prelude::*;
use crate::parser::{RMLNode, RMLValue};
use crate::syntax::{Datum, NodeModel};
use crate::assemble::append_str;
use crate::text::push_char;
use crate::value::{Number, Value, ValueModel};

verus! {

broadcast use vstd::std_specs::vec::group_vec_axioms;

pub open spec fn digit_char(d: nat) -> char {
    if d == 0 { '0' } else if d == 1 { '1' } else if d == 2 { '2' } else if d == 3 { '3' }
    else if d == 4 { '4' } else if d == 5 { '5' } else if d == 6 { '6' } else if d == 7 { '7' }
    else if d == 8 { '8' } else { '9' }
}

/// The decimal digits of `n`, most significant first, without leading zeros.
pub open spec fn nat_digits(n: nat) -> Seq<char>
    decreases n,
{
    if n < 10 {
        seq![digit_char(n)]
    } else {
        nat_digits(n / 10).push(digit_char(n % 10))
    }
}

pub open spec fn abs(i: int) -> nat {
    if i < 0 { (-i) as nat } else { i as nat }
}

pub open spec fn sign_text(i: int) -> Seq<char> {
    if i < 0 { seq!['-'] } else { Seq::empty() }
}

/// An integer in decimal.
pub open spec fn int_text(i: int) -> Seq<char> {
    sign_text(i) + nat_digits(abs(i))
}

/// `d` with zeros in front, to at least `n` characters.
pub open spec fn pad_zeros(d: Seq<char>, n: nat) -> Seq<char> {
    if d.len() >= n { d } else { Seq::new((n - d.len()) as nat, |i: int| '0') + d }
}

/// A decimal with its point: `-?digit+.digit+`, at least one digit after
/// the point.
pub open spec fn float_text(n: Number) -> Seq<char> {
    let d = pad_zeros(nat_digits(abs(n.mantissa as int)), n.scale as nat + 1);
    let cut = d.len() - n.scale;
    let frac = if n.scale == 0 { seq!['0'] } else { d.subrange(cut, d.len() as int) };
    sign_text(n.mantissa as int) + d.subrange(0, cut) + seq!['.'] + frac
}

/// A number as it is displayed: as an integer when it is one.
pub open spec fn number_text(n: Number) -> Seq<char> {
    if n.scale == 0 { int_text(n.mantissa as int) } else { float_text(n) }
}

pub open spec fn parens(s: Seq<char>) -> Seq<char> {
    seq!['('] + s + seq![')']
}

/// A literal written in the register machine language.
pub open spec fn datum_text(d: Datum) -> Seq<char>
    decreases d,
{
    match d {
        Datum::Float(n) => float_text(n),
        Datum::Num(n) => int_text(n),
        Datum::List(items) => parens(data_join(items)),
        Datum::Str(s) => seq!['"'] + s + seq!['"'],
        Datum::Symbol(s) => s,
    }
}

/// Literals separated by single spaces.
pub open spec fn data_join(items: Seq<Datum>) -> Seq<char>
    decreases items,
{
    if items.len() == 0 {
        Seq::empty()
    } else if items.len() == 1 {
        datum_text(items[0])
    } else {
        data_join(items.subrange(0, items.len() - 1)) + seq![' '] + datum_text(
            items[items.len() - 1],
        )
    }
}

/// Each node preceded by a space.
pub open spec fn spaced_nodes(args: Seq<NodeModel>) -> Seq<char>
    decreases args,
{
    if args.len() == 0 {
        Seq::empty()
    } else {
        spaced_nodes(args.subrange(0, args.len() - 1)) + seq![' '] + node_text(
            args[args.len() - 1],
        )
    }
}

pub open spec fn keyword(k: Seq<char>, rest: Seq<char>) -> Seq<char> {
    parens(k + seq![' '] + rest)
}

/// An instruction, or a part of one, written in the register machine language.
pub open spec fn node_text(n: NodeModel) -> Seq<char>
    decreases n,
{
    match n {
        NodeModel::Assignment(r, v) => keyword("assign"@, r + seq![' '] + node_text(*v)),
        NodeModel::Branch(l) => keyword("branch"@, node_text(*l)),
        NodeModel::Constant(v) => keyword("const"@, datum_text(v)),
        NodeModel::GotoLabel(l) => keyword("goto"@, node_text(*l)),
        NodeModel::Label(l) => keyword("label"@, l),
        NodeModel::List(items) => datum_text(Datum::List(items)),
        NodeModel::Operation(name, args) => keyword("op"@, name) + spaced_nodes(args),
        NodeModel::PerformOp(op) => keyword("perform"@, node_text(*op)),
        NodeModel::Reg(r) => keyword("reg"@, r),
        NodeModel::Restore(r) => keyword("restore"@, r),
        NodeModel::Save(r) => keyword("save"@, r),
        NodeModel::Symbol(s) => s,
        NodeModel::TestOp(op) => keyword("test"@, node_text(*op)),
    }
}

/// The values of a list that are not `Nil`, displayed and separated by
/// single spaces.
pub open spec fn shown_values_text(items: Seq<ValueModel>) -> Seq<char>
    decreases items,
{
    if items.len() == 0 {
        Seq::empty()
    } else {
        let front = shown_values_text(items.subrange(0, items.len() - 1));
        let last = items[items.len() - 1];
        if last is Nil {
            front
        } else if !has_shown(items.subrange(0, items.len() - 1)) {
            value_text(last)
        } else {
            front + seq![' '] + value_text(last)
        }
    }
}

/// Some value of the list is not `Nil`.
pub open spec fn has_shown(items: Seq<ValueModel>) -> bool {
    exists|i: int| 0 <= i < items.len() && !(#[trigger] items[i] is Nil)
}

pub proof fn lemma_nothing_shown(items: Seq<ValueModel>)
    requires
        !has_shown(items),
    ensures
        shown_values_text(items) == Seq::<char>::empty(),
    decreases items.len(),
{
    if items.len() > 0 {
        let front = items.subrange(0, items.len() - 1);
        assert(!has_shown(front)) by {
            if has_shown(front) {
                let j = choose|j: int| 0 <= j < front.len() && !(#[trigger] front[j] is Nil);
                assert(items[j] == front[j]);
            }
        }
        lemma_nothing_shown(front);
        assert(items[items.len() - 1] is Nil);
    }
}

/// A value as it is displayed.
pub open spec fn value_text(v: ValueModel) -> Seq<char>
    decreases v,
{
    match v {
        ValueModel::Num(n) => number_text(n),
        ValueModel::Symbol(s) => s,
        ValueModel::String(s) => seq!['"'] + s + seq!['"'],
        ValueModel::Boolean(b) => if b { "#t"@ } else { "#f"@ },
        ValueModel::List(items) => parens(shown_values_text(items)),
        ValueModel::Nil => Seq::empty(),
        ValueModel::Pointer(p) => "Pointer-"@ + nat_digits(p),
        ValueModel::Procedure(name, _) => "Procedure-"@ + name,
    }
}


fn digit_of(d: u64) -> (c: char)
    requires
        d < 10,
    ensures
        c == digit_char(d as nat),
{
    if d == 0 { '0' } else if d == 1 { '1' } else if d == 2 { '2' } else if d == 3 { '3' }
    else if d == 4 { '4' } else if d == 5 { '5' } else if d == 6 { '6' } else if d == 7 { '7' }
    else if d == 8 { '8' } else { '9' }
}

/// The decimal digits of `n`.
pub fn nat_digit_chars(n: u64) -> (r: Vec<char>)
    ensures
        r@ == nat_digits(n as nat),
    decreases n,
{
    if n < 10 {
        let mut v: Vec<char> = Vec::new();
        v.push(digit_of(n));
        proof {
            assert(v@ =~= seq![digit_char(n as nat)]);
        }
        v
    } else {
        let mut v = nat_digit_chars(n / 10);
        v.push(digit_of(n % 10));
        v
    }
}

fn push_chars(out: &mut String, cs: &Vec<char>, from: usize, to: usize)
    requires
        from <= to <= cs.len(),
    ensures
        final(out)@ == old(out)@ + cs@.subrange(from as int, to as int),
{
    let mut i = from;
    while i < to
        invariant
            from <= i <= to <= cs.len(),
            out@ == old(out)@ + cs@.subrange(from as int, i as int),
        decreases to - i,
    {
        push_char(out, cs[i]);
        i += 1;
        proof {
            assert(out@ =~= old(out)@ + cs@.subrange(from as int, i as int));
        }
    }
}

fn magnitude(i: i64) -> (r: u64)
    ensures
        r as nat == abs(i as int),
{
    if i < 0 {
        (-(i as i128)) as u64
    } else {
        i as u64
    }
}

/// Append an integer in decimal.
pub fn push_int_text(out: &mut String, i: i64)
    ensures
        final(out)@ == old(out)@ + int_text(i as int),
{
    if i < 0 {
        push_char(out, '-');
    }
    let d = nat_digit_chars(magnitude(i));
    push_chars(out, &d, 0, d.len());
    proof {
        assert(d@.subrange(0, d.len() as int) =~= d@);
        assert(out@ =~= old(out)@ + int_text(i as int));
    }
}

/// Append a decimal with its point.
pub fn push_float_text(out: &mut String, n: Number)
    ensures
        final(out)@ == old(out)@ + float_text(n),
{
    let raw = nat_digit_chars(magnitude(n.mantissa));
    let want: u64 = n.scale as u64 + 1;
    let mut d: Vec<char> = Vec::new();
    if (raw.len() as u64) < want {
        let mut k: u64 = 0;
        while k < want - raw.len() as u64
            invariant
                raw.len() < want,
                k <= want - raw.len(),
                d@ == Seq::new(k as nat, |i: int| '0'),
            decreases want - raw.len() - k,
        {
            d.push('0');
            k += 1;
            proof {
                assert(d@ =~= Seq::new(k as nat, |i: int| '0'));
            }
        }
    }
    let ghost zeros = d@;
    let mut i: usize = 0;
    while i < raw.len()
        invariant
            i <= raw.len(),
            d@ == zeros + raw@.subrange(0, i as int),
        decreases raw.len() - i,
    {
        d.push(raw[i]);
        i += 1;
        proof {
            assert(d@ =~= zeros + raw@.subrange(0, i as int));
        }
    }
    proof {
        assert(raw@.subrange(0, raw.len() as int) =~= raw@);
        assert(d@ == pad_zeros(nat_digits(abs(n.mantissa as int)), n.scale as nat + 1));
    }
    if n.mantissa < 0 {
        push_char(out, '-');
    }
    let cut = d.len() - n.scale as usize;
    push_chars(out, &d, 0, cut);
    push_char(out, '.');
    if n.scale == 0 {
        push_char(out, '0');
    } else {
        push_chars(out, &d, cut, d.len());
    }
    proof {
        assert(out@ =~= old(out)@ + float_text(n));
    }
}

/// Append a number as it is displayed.
pub fn push_number_text(out: &mut String, n: Number)
    ensures
        final(out)@ == old(out)@ + number_text(n),
{
    if n.scale == 0 {
        push_int_text(out, n.mantissa);
    } else {
        push_float_text(out, n);
    }
}

impl RMLValue {
    /// This literal written in the register machine language.
    pub fn to_text(&self) -> (r: String)
        ensures
            r@ == datum_text(self.datum()),
    {
        let mut out = String::new();
        self.write_text(&mut out);
        out
    }

    fn write_text(&self, out: &mut String)
        ensures
            final(out)@ == old(out)@ + datum_text(self.datum()),
        decreases self,
    {
        match self {
            RMLValue::Float(n) => push_float_text(out, *n),
            RMLValue::Num(n) => push_int_text(out, *n as i64),
            RMLValue::Str(s) => {
                push_char(out, '"');
                append_str(out, s.as_str());
                push_char(out, '"');
                proof {
                    assert(out@ =~= old(out)@ + datum_text(self.datum()));
                }
            },
            RMLValue::Symbol(s) => append_str(out, s.as_str()),
            RMLValue::List(items) => {
                proof {
                    RMLValue::lemma_list_datum(*items);
                }
                let ghost ds = RMLValue::data(items@);
                push_char(out, '(');
                let ghost start = out@;
                let mut i: usize = 0;
                proof {
                    assert(ds.subrange(0, 0) =~= Seq::<Datum>::empty());
                    assert(out@ =~= start + data_join(ds.subrange(0, 0)));
                }
                while i < items.len()
                    invariant
                        i <= items.len(),
                        *self == RMLValue::List(*items),
                        ds == RMLValue::data(items@),
                        out@ == start + data_join(ds.subrange(0, i as int)),
                    decreases items.len() - i,
                {
                    proof {
                        assert(decreases_to!(*self => (*self)->List_0));
                        let p = ds.subrange(0, i + 1);
                        assert(p.subrange(0, p.len() - 1) =~= ds.subrange(0, i as int));
                        assert(p[p.len() - 1] == items[i as int].datum());
                        if i == 0 {
                            assert(p[0] == items[0].datum());
                        }
                    }
                    if i > 0 {
                        push_char(out, ' ');
                    }
                    items[i].write_text(out);
                    i += 1;
                    proof {
                        assert(out@ =~= start + data_join(ds.subrange(0, i as int)));
                    }
                }
                push_char(out, ')');
                proof {
                    assert(ds.subrange(0, items.len() as int) =~= ds);
                    assert(out@ =~= old(out)@ + datum_text(self.datum()));
                }
            },
        }
    }
}


fn push_keyword_open(out: &mut String, k: &str)
    ensures
        final(out)@ == old(out)@ + seq!['('] + k@ + seq![' '],
{
    push_char(out, '(');
    append_str(out, k);
    push_char(out, ' ');
    proof {
        assert(out@ =~= old(out)@ + seq!['('] + k@ + seq![' ']);
    }
}

impl RMLNode {
    /// This instruction written in the register machine language.
    pub fn to_text(&self) -> (r: String)
        ensures
            r@ == node_text(self.model()),
    {
        let mut out = String::new();
        self.write_text(&mut out);
        proof {
            assert(out@ =~= node_text(self.model()));
        }
        out
    }

    fn write_text(&self, out: &mut String)
        ensures
            final(out)@ == old(out)@ + node_text(self.model()),
        decreases self,
    {
        match self {
            RMLNode::Assignment(r, v) => {
                proof {
                    assert(decreases_to!(*self => **v));
                }
                push_keyword_open(out, "assign");
                append_str(out, r.as_str());
                push_char(out, ' ');
                v.write_text(out);
                push_char(out, ')');
            },
            RMLNode::Branch(l) => {
                proof {
                    assert(decreases_to!(*self => **l));
                }
                push_keyword_open(out, "branch");
                l.write_text(out);
                push_char(out, ')');
            },
            RMLNode::Constant(v) => {
                push_keyword_open(out, "const");
                let t = v.to_text();
                append_str(out, t.as_str());
                push_char(out, ')');
            },
            RMLNode::GotoLabel(l) => {
                proof {
                    assert(decreases_to!(*self => **l));
                }
                push_keyword_open(out, "goto");
                l.write_text(out);
                push_char(out, ')');
            },
            RMLNode::Label(l) => {
                push_keyword_open(out, "label");
                append_str(out, l.as_str());
                push_char(out, ')');
            },
            RMLNode::List(items) => {
                let lit = RMLValue::List(crate::parser::copy_rml_values(items));
                proof {
                    RMLValue::lemma_list_datum(lit->List_0);
                    RMLValue::lemma_list_datum(*items);
                }
                let t = lit.to_text();
                append_str(out, t.as_str());
            },
            RMLNode::Operation(name, args) => {
                proof {
                    RMLNode::lemma_operation_model(*name, *args);
                }
                let ghost ms = RMLNode::models(args@);
                push_keyword_open(out, "op");
                append_str(out, name.as_str());
                push_char(out, ')');
                let ghost start = out@;
                let mut i: usize = 0;
                proof {
                    assert(ms.subrange(0, 0) =~= Seq::<NodeModel>::empty());
                    assert(out@ =~= start + spaced_nodes(ms.subrange(0, 0)));
                }
                while i < args.len()
                    invariant
                        i <= args.len(),
                        *self == RMLNode::Operation(*name, *args),
                        ms == RMLNode::models(args@),
                        out@ == start + spaced_nodes(ms.subrange(0, i as int)),
                    decreases args.len() - i,
                {
                    proof {
                        assert(decreases_to!(*self => (*self)->Operation_1));
                        let p = ms.subrange(0, i + 1);
                        assert(p.subrange(0, p.len() - 1) =~= ms.subrange(0, i as int));
                        assert(p[p.len() - 1] == args[i as int].model());
                    }
                    push_char(out, ' ');
                    args[i].write_text(out);
                    i += 1;
                    proof {
                        assert(out@ =~= start + spaced_nodes(ms.subrange(0, i as int)));
                    }
                }
                proof {
                    assert(ms.subrange(0, args.len() as int) =~= ms);
                }
            },
            RMLNode::PerformOp(op) => {
                proof {
                    assert(decreases_to!(*self => **op));
                }
                push_keyword_open(out, "perform");
                op.write_text(out);
                push_char(out, ')');
            },
            RMLNode::Reg(r) => {
                push_keyword_open(out, "reg");
                append_str(out, r.as_str());
                push_char(out, ')');
            },
            RMLNode::Restore(r) => {
                push_keyword_open(out, "restore");
                append_str(out, r.as_str());
                push_char(out, ')');
            },
            RMLNode::Save(r) => {
                push_keyword_open(out, "save");
                append_str(out, r.as_str());
                push_char(out, ')');
            },
            RMLNode::Symbol(s) => append_str(out, s.as_str()),
            RMLNode::TestOp(op) => {
                proof {
                    assert(decreases_to!(*self => **op));
                }
                push_keyword_open(out, "test");
                op.write_text(out);
                push_char(out, ')');
            },
        }
        proof {
            assert(out@ =~= old(out)@ + node_text(self.model()));
        }
    }
}

/// The nodes' texts separated by single spaces.
pub open spec fn nodes_join(ns: Seq<NodeModel>) -> Seq<char>
    decreases ns.len(),
{
    if ns.len() == 0 {
        Seq::empty()
    } else if ns.len() == 1 {
        node_text(ns[0])
    } else {
        nodes_join(ns.drop_last()) + seq![' '] + node_text(ns.last())
    }
}

/// A whole program written back as text: its nodes in one pair of
/// parentheses.
pub fn render_program(nodes: &Vec<RMLNode>) -> (r: String)
    ensures
        r@ == parens(nodes_join(RMLNode::models(nodes@))),
{
    let ghost ms = RMLNode::models(nodes@);
    let mut out = String::new();
    push_char(&mut out, '(');
    let mut i: usize = 0;
    proof {
        assert(ms.subrange(0, 0) =~= Seq::<NodeModel>::empty());
        assert(out@ =~= seq!['('] + nodes_join(ms.subrange(0, 0)));
    }
    while i < nodes.len()
        invariant
            i <= nodes.len(),
            ms == RMLNode::models(nodes@),
            out@ == seq!['('] + nodes_join(ms.subrange(0, i as int)),
        decreases nodes.len() - i,
    {
        proof {
            assert(ms.subrange(0, i + 1).drop_last() =~= ms.subrange(0, i as int));
        }
        if i > 0 {
            push_char(&mut out, ' ');
        }
        let t = nodes[i].to_text();
        append_str(&mut out, t.as_str());
        i += 1;
        proof {
            assert(out@ =~= seq!['('] + nodes_join(ms.subrange(0, i as int)));
        }
    }
    push_char(&mut out, ')');
    proof {
        assert(ms.subrange(0, nodes.len() as int) =~= ms);
        assert(out@ =~= parens(nodes_join(ms)));
    }
    out
}


impl Value {
    /// This value as it is displayed: numbers in decimal, booleans as `#t`
    /// and `#f`, strings in quotes, lists in parentheses without their `Nil`
    /// elements, `Nil` as nothing.
    pub fn to_text(&self) -> (r: String)
        ensures
            r@ == value_text(self.model()),
    {
        let mut out = String::new();
        self.write_text(&mut out);
        proof {
            assert(out@ =~= value_text(self.model()));
        }
        out
    }

    fn write_text(&self, out: &mut String)
        ensures
            final(out)@ == old(out)@ + value_text(self.model()),
        decreases self,
    {
        match self {
            Value::Num(n) => push_number_text(out, *n),
            Value::Symbol(s) => append_str(out, s.as_str()),
            Value::String(s) => {
                push_char(out, '"');
                append_str(out, s.as_str());
                push_char(out, '"');
            },
            Value::Boolean(b) => {
                if *b {
                    append_str(out, "#t");
                } else {
                    append_str(out, "#f");
                }
            },
            Value::List(items) => {
                proof {
                    Value::lemma_list_model(*items);
                }
                let ghost vs = Value::models(items@);
                push_char(out, '(');
                let ghost start = out@;
                let mut shown = false;
                let mut i: usize = 0;
                proof {
                    assert(vs.subrange(0, 0) =~= Seq::<ValueModel>::empty());
                    assert(out@ =~= start + shown_values_text(vs.subrange(0, 0)));
                }
                while i < items.len()
                    invariant
                        i <= items.len(),
                        *self == Value::List(*items),
                        vs == Value::models(items@),
                        out@ == start + shown_values_text(vs.subrange(0, i as int)),
                        shown == has_shown(vs.subrange(0, i as int)),
                    decreases items.len() - i,
                {
                    let ghost p = vs.subrange(0, i + 1);
                    proof {
                        assert(decreases_to!(*self => (*self)->List_0));
                        assert(p.subrange(0, p.len() - 1) =~= vs.subrange(0, i as int));
                        assert(p[p.len() - 1] == items[i as int].model());
                    }
                    proof {
                        if !shown {
                            lemma_nothing_shown(vs.subrange(0, i as int));
                        }
                    }
                    let is_nil = match &items[i] {
                        Value::Nil => true,
                        _ => false,
                    };
                    if !is_nil {
                        if shown {
                            push_char(out, ' ');
                        }
                        items[i].write_text(out);
                        shown = true;
                    }
                    proof {
                        if !is_nil {
                            assert(!(p[i as int] is Nil));
                        } else {
                            assert forall|j: int| 0 <= j < p.len() && !(#[trigger] p[j] is Nil) implies 0 <= j < i && !(vs.subrange(0, i as int)[j] is Nil) by {
                                if j < i {
                                    assert(p[j] == vs.subrange(0, i as int)[j]);
                                }
                            }
                        }
                        if has_shown(vs.subrange(0, i as int)) {
                            let j = choose|j: int| 0 <= j < i && !(#[trigger] vs.subrange(0, i as int)[j] is Nil);
                            assert(p[j] == vs.subrange(0, i as int)[j]);
                        }
                    }
                    proof {
                        assert(out@ =~= start + shown_values_text(p));
                    }
                    i += 1;
                }
                push_char(out, ')');
                proof {
                    assert(vs.subrange(0, items.len() as int) =~= vs);
                }
            },
            Value::Nil => {},
            Value::Pointer(p) => {
                append_str(out, "Pointer-");
                let d = nat_digit_chars(*p as u64);
                push_chars(out, &d, 0, d.len());
                proof {
                    assert(d@.subrange(0, d.len() as int) =~= d@);
                }
            },
            Value::Procedure(p) => {
                append_str(out, "Procedure-");
                append_str(out, p.name.as_str());
            },
        }
        proof {
            assert(out@ =~= old(out)@ + value_text(self.model()));
        }
    }
}

/// A list of values as it is displayed.
pub fn values_to_str(vals: &Vec<Value>) -> (r: String)
    ensures
        r@ == parens(shown_values_text(Value::models(vals@))),
{
    let whole = Value::List(crate::value::copy_values(vals));
    proof {
        Value::lemma_list_model(whole->List_0);
    }
    whole.to_text()
}

} // verus!
