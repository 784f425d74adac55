//! Writing parsed instructions back as text and reading that text again
//! gives the same instructions.

use vstd::prelude::*;
use crate::render::{
    abs, data_join, nodes_join, datum_text, digit_char, float_text, int_text, keyword, nat_digits, node_text,
    pad_zeros, parens, sign_text, spaced_nodes,
};
use crate::syntax::{
    assign_source, atom_datum, atom_end, const_form, digits_end, digits_value, instruction,
    is_digit, is_float_text, is_int_text, is_space, is_symbol_char, keyword_instruction,
    label_form, named_form, op_arg, op_form, parse_text, program, read_datum, read_items,
    read_text, reg_form, sign_len, signed, skip_blank, string_end, trim_zeros, Datum, NodeModel,
    lemma_skip_blank_bounds, lemma_atom_end_bounds, lemma_string_end_bounds,
};
use crate::value::Number;

verus! {

/// Each literal preceded by a space.
pub open spec fn spaced_data(xs: Seq<Datum>) -> Seq<char>
    decreases xs.len(),
{
    if xs.len() == 0 {
        Seq::empty()
    } else {
        spaced_data(xs.drop_last()) + seq![' '] + datum_text(xs.last())
    }
}

proof fn lemma_join_split(xs: Seq<Datum>, k: int)
    requires
        1 <= k <= xs.len(),
    ensures
        data_join(xs) == data_join(xs.subrange(0, k)) + spaced_data(xs.subrange(k, xs.len() as int)),
    decreases xs.len(),
{
    if k == xs.len() {
        assert(xs.subrange(0, k) =~= xs);
        assert(xs.subrange(k, xs.len() as int) =~= Seq::<Datum>::empty());
    } else {
        let front = xs.subrange(0, xs.len() - 1);
        lemma_join_split(front, k);
        assert(front.subrange(0, k) =~= xs.subrange(0, k));
        let tail = xs.subrange(k, xs.len() as int);
        assert(tail.drop_last() =~= front.subrange(k, front.len() as int));
        assert(tail.last() == xs[xs.len() - 1]);
        assert(data_join(xs) == data_join(front) + seq![' '] + datum_text(xs[xs.len() - 1]));
        assert(data_join(xs) =~= data_join(xs.subrange(0, k)) + spaced_data(tail));
    }
}

proof fn lemma_join_first(xs: Seq<Datum>)
    requires
        xs.len() >= 1,
    ensures
        data_join(xs) == datum_text(xs[0]) + spaced_data(xs.subrange(1, xs.len() as int)),
{
    lemma_join_split(xs, 1);
    assert(data_join(xs.subrange(0, 1)) == datum_text(xs[0]));
}

proof fn lemma_spaced_nodes(a: Seq<NodeModel>, b: Seq<Datum>)
    requires
        a.len() == b.len(),
        forall|i: int| 0 <= i < a.len() ==> node_text(#[trigger] a[i]) == datum_text(b[i]),
    ensures
        spaced_nodes(a) == spaced_data(b),
    decreases a.len(),
{
    if a.len() > 0 {
        let a0 = a.subrange(0, a.len() - 1);
        let b0 = b.drop_last();
        assert forall|i: int| 0 <= i < a0.len() implies node_text(#[trigger] a0[i]) == datum_text(
            b0[i],
        ) by {
            assert(a0[i] == a[i]);
        }
        lemma_spaced_nodes(a0, b0);
        assert(node_text(a[a.len() - 1]) == datum_text(b[b.len() - 1]));
    }
}

proof fn lemma_two_items(items: Seq<Datum>)
    requires
        items.len() == 2,
    ensures
        datum_text(Datum::List(items)) == parens(
            datum_text(items[0]) + seq![' '] + datum_text(items[1]),
        ),
{
    assert(items.subrange(0, 1).len() == 1);
    assert(data_join(items.subrange(0, 1)) == datum_text(items[0]));
}

proof fn lemma_named_form_text(d: Datum, k: Seq<char>)
    requires
        named_form(d, k) is Some,
    ensures
        datum_text(d) == keyword(k, named_form(d, k)->Some_0),
{
    lemma_two_items(d->List_0);
}

proof fn lemma_op_arg_text(d: Datum)
    requires
        op_arg(d) is Some,
    ensures
        node_text(op_arg(d)->Some_0) == datum_text(d),
{
    if const_form(d) is Some {
        lemma_two_items(d->List_0);
    } else {
        lemma_named_form_text(d, "reg"@);
    }
}

/// `(op name) arg ...` written out is the text of its items.
proof fn lemma_op_form_text(items: Seq<Datum>)
    requires
        op_form(items) is Some,
    ensures
        node_text(op_form(items)->Some_0) == data_join(items),
{
    let op = op_form(items)->Some_0;
    let args = op->Operation_1;
    let rest = items.subrange(1, items.len() as int);
    lemma_named_form_text(items[0], "op"@);
    assert forall|i: int| 0 <= i < args.len() implies node_text(#[trigger] args[i]) == datum_text(
        rest[i],
    ) by {
        assert(op_arg(items[i + 1]) is Some);
        lemma_op_arg_text(items[i + 1]);
    }
    lemma_spaced_nodes(args, rest);
    lemma_join_first(items);
}

proof fn lemma_assign_source_text(items: Seq<Datum>)
    requires
        assign_source(items) is Some,
    ensures
        node_text(assign_source(items)->Some_0) == data_join(items),
{
    if items.len() == 1 && const_form(items[0]) is Some {
        lemma_two_items(items[0]->List_0);
    } else if items.len() == 1 && reg_form(items[0]) is Some {
        lemma_named_form_text(items[0], "reg"@);
    } else if items.len() == 1 && label_form(items[0]) is Some {
        lemma_named_form_text(items[0], "label"@);
    } else {
        lemma_op_form_text(items);
    }
}

/// An instruction read from a datum is written back as exactly that
/// datum's text.
pub proof fn lemma_instruction_text(d: Datum)
    requires
        instruction(d) is Some,
    ensures
        node_text(instruction(d)->Some_0) == datum_text(d),
{
    match d {
        Datum::List(items) => {
            if keyword_instruction(items) is Some {
                let k = items[0]->Symbol_0;
                let rest = items.subrange(1, items.len() as int);
                lemma_join_first(items);
                if k == "assign"@ {
                    let src = items.subrange(2, items.len() as int);
                    lemma_assign_source_text(src);
                    lemma_join_split(items, 2);
                    lemma_join_two(items.subrange(0, 2));
                    assert(items.subrange(2, items.len() as int) =~= src);
                    lemma_spaced_first(src);
                    assert(data_join(items) =~= "assign"@ + seq![' '] + items[1]->Symbol_0
                        + seq![' '] + data_join(src));
                    assert(node_text(instruction(d)->Some_0) =~= datum_text(d));
                } else if k == "branch"@ {
                    lemma_two_items(items);
                    lemma_named_form_text(items[1], "label"@);
                    let l = label_form(items[1])->Some_0;
                    assert(node_text(l) == datum_text(items[1]));
                    assert(instruction(d)->Some_0 == NodeModel::Branch(Box::new(l)));
                    assert(node_text(NodeModel::Branch(Box::new(l))) == keyword("branch"@, node_text(l)));
                    assert(node_text(instruction(d)->Some_0) =~= datum_text(d));
                } else if k == "goto"@ {
                    lemma_two_items(items);
                    if label_form(items[1]) is Some {
                        lemma_named_form_text(items[1], "label"@);
                        let l = label_form(items[1])->Some_0;
                        assert(node_text(l) == datum_text(items[1]));
                        assert(instruction(d)->Some_0 == NodeModel::GotoLabel(Box::new(l)));
                        assert(node_text(NodeModel::GotoLabel(Box::new(l))) == keyword("goto"@, node_text(l)));
                        assert(node_text(instruction(d)->Some_0) =~= datum_text(d));
                    } else {
                        lemma_named_form_text(items[1], "reg"@);
                        let l = reg_form(items[1])->Some_0;
                        assert(node_text(l) == datum_text(items[1]));
                        assert(instruction(d)->Some_0 == NodeModel::GotoLabel(Box::new(l)));
                        assert(node_text(NodeModel::GotoLabel(Box::new(l))) == keyword("goto"@, node_text(l)));
                        assert(node_text(instruction(d)->Some_0) =~= datum_text(d));
                    }
                } else if k == "save"@ || k == "restore"@ {
                    lemma_two_items(items);
                    assert(node_text(instruction(d)->Some_0) =~= datum_text(d));
                } else if k == "test"@ || k == "perform"@ {
                    lemma_op_form_text(rest);
                    lemma_join_split(items, 1);
                    assert(items.subrange(0, 1) =~= seq![items[0]]);
                    lemma_join_first(rest);
                    assert(spaced_data(rest) =~= seq![' '] + data_join(rest)) by {
                        lemma_spaced_first(rest);
                    }
                    assert(node_text(instruction(d)->Some_0) =~= datum_text(d));
                } else if k == "const"@ {
                    lemma_two_items(items);
                    assert(node_text(instruction(d)->Some_0) =~= datum_text(d));
                } else if k == "reg"@ {
                    lemma_named_form_text(d, "reg"@);
                    assert(node_text(instruction(d)->Some_0) =~= datum_text(d));
                } else {
                    lemma_named_form_text(d, "label"@);
                    assert(node_text(instruction(d)->Some_0) =~= datum_text(d));
                }
            }
        },
        _ => {},
    }
}

proof fn lemma_join_two(xs: Seq<Datum>)
    requires
        xs.len() == 2,
    ensures
        data_join(xs) == datum_text(xs[0]) + seq![' '] + datum_text(xs[1]),
{
    assert(xs.subrange(0, 1).len() == 1);
    assert(data_join(xs.subrange(0, 1)) == datum_text(xs[0]));
}

proof fn lemma_spaced_first(xs: Seq<Datum>)
    requires
        xs.len() >= 1,
    ensures
        spaced_data(xs) == seq![' '] + data_join(xs),
    decreases xs.len(),
{
    if xs.len() > 1 {
        lemma_spaced_first(xs.drop_last());
        assert(xs.drop_last() =~= xs.subrange(0, xs.len() - 1));
        assert(spaced_data(xs) =~= seq![' '] + data_join(xs));
    } else {
        assert(xs.drop_last() =~= Seq::<Datum>::empty());
        assert(spaced_data(xs.drop_last()) == Seq::<char>::empty());
        assert(xs.last() == xs[0]);
        assert(spaced_data(xs) =~= seq![' '] + data_join(xs));
    }
}


/// A literal as the reader produces it: symbols are non-empty runs of
/// symbol characters that do not read as numbers, strings hold no quote or
/// backslash, integers fit in `i32`, decimals are in lowest terms.
pub open spec fn wf_datum(d: Datum) -> bool
    decreases d,
{
    match d {
        Datum::Float(n) => n.wf(),
        Datum::Num(n) => i32::MIN <= n <= i32::MAX,
        Datum::List(items) => forall|i: int| 0 <= i < items.len() ==> wf_datum(#[trigger] items[i]),
        Datum::Str(x) => forall|i: int| 0 <= i < x.len() ==> #[trigger] x[i] != '"' && x[i] != '\\',
        Datum::Symbol(x) => {
            &&& x.len() > 0
            &&& forall|i: int| 0 <= i < x.len() ==> is_symbol_char(#[trigger] x[i])
            &&& !is_int_text(x)
            &&& !is_float_text(x)
        },
    }
}

proof fn lemma_digit_char(k: nat)
    requires
        k < 10,
    ensures
        is_digit(digit_char(k)),
        is_symbol_char(digit_char(k)),
        (digit_char(k) as nat - '0' as nat) as nat == k,
        digit_char(k) == '0' <==> k == 0,
{
}

proof fn lemma_nat_digits(n: nat)
    ensures
        nat_digits(n).len() >= 1,
        forall|i: int| 0 <= i < nat_digits(n).len() ==> is_digit(#[trigger] nat_digits(n)[i]),
        digits_value(nat_digits(n)) == n,
        nat_digits(n).last() == digit_char(n % 10),
    decreases n,
{
    lemma_digit_char(n % 10);
    if n >= 10 {
        lemma_nat_digits(n / 10);
        let d = nat_digits(n);
        assert(d.drop_last() =~= nat_digits(n / 10));
        assert(digits_value(d) == digits_value(nat_digits(n / 10)) * 10 + n % 10);
        assert(n == (n / 10) * 10 + n % 10);
    } else {
        assert(nat_digits(n).drop_last() =~= Seq::<char>::empty());
        assert(digits_value(Seq::<char>::empty()) == 0);
    }
}

proof fn lemma_zeros_value(z: nat, d: Seq<char>)
    ensures
        digits_value(Seq::new(z, |i: int| '0') + d) == digits_value(d),
    decreases z + d.len(),
{
    let zs = Seq::new(z, |i: int| '0');
    if d.len() > 0 {
        lemma_zeros_value(z, d.drop_last());
        assert((zs + d).drop_last() =~= zs + d.drop_last());
    } else if z > 0 {
        lemma_zeros_value((z - 1) as nat, d);
        assert((zs + d).drop_last() =~= Seq::new((z - 1) as nat, |i: int| '0') + d);
        assert(zs + d =~= zs);
    } else {
        assert(zs + d =~= d);
    }
}

proof fn lemma_digits_end_at(t: Seq<char>, i: int, j: int)
    requires
        0 <= i <= j <= t.len(),
        forall|k: int| i <= k < j ==> is_digit(#[trigger] t[k]),
        j == t.len() || !is_digit(t[j]),
    ensures
        digits_end(t, i) == j,
    decreases j - i,
{
    if i < j {
        lemma_digits_end_at(t, i + 1, j);
    }
}

proof fn lemma_atom_end_at(s: Seq<char>, i: int, j: int)
    requires
        0 <= i <= j <= s.len(),
        forall|k: int| i <= k < j ==> is_symbol_char(#[trigger] s[k]),
        j == s.len() || !is_symbol_char(s[j]),
    ensures
        atom_end(s, i) == j,
    decreases j - i,
{
    if i < j {
        lemma_atom_end_at(s, i + 1, j);
    }
}

proof fn lemma_string_end_at(s: Seq<char>, i: int, j: int)
    requires
        0 <= i <= j < s.len(),
        forall|k: int| i <= k < j ==> #[trigger] s[k] != '"' && s[k] != '\\',
        s[j] == '"',
    ensures
        string_end(s, i) == j,
    decreases j - i,
{
    if i < j {
        lemma_string_end_at(s, i + 1, j);
    }
}

/// The text of an integer reads back as that integer.
proof fn lemma_int_text(n: int)
    requires
        i32::MIN <= n <= i32::MAX,
    ensures
        int_text(n).len() > 0,
        forall|i: int| 0 <= i < int_text(n).len() ==> is_symbol_char(#[trigger] int_text(n)[i]),
        atom_datum(int_text(n)) == Ok::<Datum, crate::syntax::RMLParseError>(Datum::Num(n)),
{
    let t = int_text(n);
    let d = nat_digits(abs(n));
    lemma_nat_digits(abs(n));
    let sl = sign_len(t);
    assert(sl == sign_text(n).len()) by {
        if n >= 0 {
            assert(t[0] == d[0]);
        }
    }
    assert forall|k: int| sl <= k < t.len() implies is_digit(#[trigger] t[k]) by {
        assert(t[k] == d[k - sl]);
    }
    assert forall|k: int| 0 <= k < t.len() implies is_symbol_char(#[trigger] t[k]) by {
        if k >= sl {
            assert(is_digit(t[k]));
        }
    }
    lemma_digits_end_at(t, sl, t.len() as int);
    assert(t.subrange(sl, t.len() as int) =~= d);
}

/// The text of a decimal in lowest terms reads back as that decimal.
#[verifier::spinoff_prover]
#[verifier::rlimit(50)]
proof fn lemma_float_text(n: Number)
    requires
        n.wf(),
    ensures
        float_text(n).len() > 0,
        forall|i: int| 0 <= i < float_text(n).len() ==> is_symbol_char(#[trigger] float_text(n)[i]),
        atom_datum(float_text(n)) == Ok::<Datum, crate::syntax::RMLParseError>(Datum::Float(n)),
{
    let m = n.mantissa as int;
    let a = abs(m);
    let raw = nat_digits(a);
    lemma_nat_digits(a);
    let d = pad_zeros(raw, n.scale as nat + 1);
    let z: nat = if raw.len() >= n.scale as nat + 1 { 0 } else { (n.scale as nat + 1 - raw.len()) as nat };
    assert(d =~= Seq::new(z, |i: int| '0') + raw);
    lemma_zeros_value(z, raw);
    assert forall|k: int| 0 <= k < d.len() implies is_digit(#[trigger] d[k]) by {
        if k >= z {
            assert(d[k] == raw[k - z]);
        }
    }
    let cut = d.len() - n.scale;
    let frac = if n.scale == 0 { seq!['0'] } else { d.subrange(cut, d.len() as int) };
    let t = float_text(n);
    let sg = sign_text(m);
    assert(t == sg + d.subrange(0, cut) + seq!['.'] + frac);
    let sl = sg.len() as int;
    let e = sl + cut;
    assert(sign_len(t) == sl) by {
        if m >= 0 {
            assert(t[0] == d[0]);
        }
    }
    assert forall|k: int| sl <= k < e implies is_digit(#[trigger] t[k]) by {
        assert(t[k] == d[k - sl]);
    }
    assert(t[e] == '.');
    lemma_digits_end_at(t, sl, e);
    assert forall|k: int| e + 1 <= k < t.len() implies is_digit(#[trigger] t[k]) by {
        assert(t[k] == frac[k - e - 1]);
        if n.scale != 0 {
            assert(frac[k - e - 1] == d[cut + k - e - 1]);
        }
    }
    lemma_digits_end_at(t, e + 1, t.len() as int);
    assert forall|k: int| 0 <= k < t.len() implies is_symbol_char(#[trigger] t[k]) by {
        if k >= sl && k != e {
            assert(is_digit(t[k]));
        }
    }
    assert(!is_int_text(t));
    assert(is_float_text(t));
    let tf = t.subrange(e + 1, t.len() as int);
    assert(tf =~= frac);
    if n.scale == 0 {
        assert(frac.drop_last() =~= Seq::<char>::empty());
        assert(trim_zeros(frac) == trim_zeros(Seq::<char>::empty()));
        assert(trim_zeros(tf) =~= Seq::<char>::empty());
        assert(t.subrange(sl, e) + trim_zeros(tf) =~= d);
    } else {
        assert(m % 10 != 0);
        assert(a % 10 != 0) by (nonlinear_arith)
            requires
                m % 10 != 0,
                a == (if m < 0 { -m } else { m }),
        ;
        lemma_digit_char(a % 10);
        assert(frac.last() == raw.last());
        assert(trim_zeros(tf) == tf);
        assert(t.subrange(sl, e) + trim_zeros(tf) =~= d);
    }
    assert(signed(t, a as int) == m);
}


/// What a well-formed literal's text starts with: a parenthesis, a quote or
/// a symbol character; never a blank, a `;` or a `)`.
proof fn lemma_text_start(d: Datum)
    requires
        wf_datum(d),
    ensures
        datum_text(d).len() > 0,
        datum_text(d)[0] == '(' || datum_text(d)[0] == '"' || is_symbol_char(datum_text(d)[0]),
        d is Num || d is Float || d is Symbol ==> forall|i: int|
            0 <= i < datum_text(d).len() ==> is_symbol_char(#[trigger] datum_text(d)[i]),
        d is Num || d is Float || d is Symbol ==> atom_datum(datum_text(d)) == Ok::<
            Datum,
            crate::syntax::RMLParseError,
        >(d),
{
    match d {
        Datum::Num(n) => lemma_int_text(n),
        Datum::Float(n) => lemma_float_text(n),
        _ => {},
    }
}

proof fn lemma_sub_index(s: Seq<char>, i: int, t: Seq<char>)
    requires
        0 <= i,
        i + t.len() <= s.len(),
        s.subrange(i, i + t.len()) == t,
    ensures
        forall|q: int| 0 <= q < t.len() ==> s[i + q] == #[trigger] t[q],
{
    assert forall|q: int| 0 <= q < t.len() implies s[i + q] == #[trigger] t[q] by {
        assert(s.subrange(i, i + t.len())[q] == s[i + q]);
    }
}

proof fn lemma_skip_one_space(s: Seq<char>, k: int)
    requires
        0 <= k < s.len(),
        is_space(s[k]),
    ensures
        skip_blank(s, k, false) == skip_blank(s, k + 1, false),
{
}

/// The text of a well-formed literal, followed by anything that cannot
/// continue it, reads back as that literal.
pub proof fn lemma_read_datum_text(s: Seq<char>, i: int, d: Datum)
    requires
        wf_datum(d),
        0 <= i,
        i + datum_text(d).len() <= s.len(),
        s.subrange(i, i + datum_text(d).len()) == datum_text(d),
        i + datum_text(d).len() == s.len() || !is_symbol_char(s[i + datum_text(d).len()]),
    ensures
        read_datum(s, i) == Ok::<(Datum, int), crate::syntax::RMLParseError>(
            (d, i + datum_text(d).len()),
        ),
    decreases d,
{
    let t = datum_text(d);
    let l = t.len() as int;
    lemma_text_start(d);
    lemma_sub_index(s, i, t);
    assert(s[i] == t[0]);
    assert(skip_blank(s, i, false) == i);
    match d {
        Datum::List(items) => {
            let inner = data_join(items);
            assert(t == parens(inner));
            assert(s.subrange(i + 1, i + 1 + inner.len()) =~= inner) by {
                assert forall|q: int| 0 <= q < inner.len() implies s.subrange(
                    i + 1,
                    i + 1 + inner.len(),
                )[q] == inner[q] by {
                    assert(s[i + (1 + q)] == t[1 + q]);
                }
            }
            assert(s[i + 1 + inner.len()] == ')') by {
                assert(t[l - 1] == ')');
            }
            lemma_read_items_text(s, i + 1, items);
        },
        Datum::Str(x) => {
            assert forall|k: int| i + 1 <= k < i + 1 + x.len() implies #[trigger] s[k] != '"'
                && s[k] != '\\' by {
                assert(s[i + (k - i)] == t[k - i]);
                assert(t[k - i] == x[k - i - 1]);
            }
            assert(s[i + 1 + x.len()] == '"') by {
                assert(t[l - 1] == '"');
            }
            lemma_string_end_at(s, i + 1, i + 1 + x.len());
            assert(s.subrange(i + 1, i + 1 + x.len()) =~= x) by {
                assert forall|q: int| 0 <= q < x.len() implies s.subrange(i + 1, i + 1 + x.len())[q]
                    == x[q] by {
                    assert(s[i + (1 + q)] == t[1 + q]);
                }
            }
        },
        _ => {
            assert forall|k: int| i <= k < i + l implies is_symbol_char(#[trigger] s[k]) by {
                assert(s[i + (k - i)] == t[k - i]);
            }
            assert(s.subrange(i, i + l) == t);
            lemma_atom_end_at(s, i, i + l);
        },
    }
}

/// The texts of well-formed literals separated by spaces, followed by `)`,
/// read back as those literals.
pub proof fn lemma_read_items_text(s: Seq<char>, i: int, items: Seq<Datum>)
    requires
        forall|k: int| 0 <= k < items.len() ==> wf_datum(#[trigger] items[k]),
        0 <= i,
        i + data_join(items).len() < s.len(),
        s.subrange(i, i + data_join(items).len()) == data_join(items),
        s[i + data_join(items).len()] == ')',
    ensures
        read_items(s, i) == Ok::<(Seq<Datum>, int), crate::syntax::RMLParseError>(
            (items, i + data_join(items).len() + 1),
        ),
    decreases items,
{
    let j = data_join(items);
    if items.len() == 0 {
        assert(skip_blank(s, i, false) == i);
        assert(items =~= Seq::<Datum>::empty());
    } else {
        let x = items[0];
        let rest = items.subrange(1, items.len() as int);
        let tx = datum_text(x);
        lemma_join_first(items);
        lemma_text_start(x);
        lemma_sub_index(s, i, j);
        assert(j[0] == tx[0]);
        assert(s[i] == tx[0]);
        assert(skip_blank(s, i, false) == i);
        assert(s.subrange(i, i + tx.len()) =~= tx);
        if rest.len() == 0 {
            assert(spaced_data(rest) == Seq::<char>::empty());
            assert(j =~= tx);
            lemma_read_datum_text(s, i, x);
            let k = i + tx.len();
            assert(skip_blank(s, k, false) == k);
            assert(read_items(s, k) == Ok::<(Seq<Datum>, int), crate::syntax::RMLParseError>(
                (Seq::empty(), k + 1),
            ));
            assert(seq![x] + Seq::<Datum>::empty() =~= items);
        } else {
            lemma_spaced_first(rest);
            let jr = data_join(rest);
            assert(j =~= tx + seq![' '] + jr);
            assert(s[i + tx.len()] == ' ') by {
                assert(j[tx.len() as int] == ' ');
            }
            lemma_read_datum_text(s, i, x);
            let k = i + tx.len();
            assert forall|q: int| 0 <= q < rest.len() implies wf_datum(#[trigger] rest[q]) by {
                assert(rest[q] == items[q + 1]);
            }
            assert(s.subrange(k + 1, k + 1 + jr.len()) =~= jr) by {
                assert forall|q: int| 0 <= q < jr.len() implies s[k + 1 + q] == jr[q] by {
                    assert(s[k + 1 + q] == j[tx.len() + 1 + q]);
                }
            }
            assert(s[k + 1 + jr.len()] == ')');
            lemma_read_items_text(s, k + 1, rest);
            lemma_skip_one_space(s, k);
            assert(read_items(s, k) == read_items(s, k + 1));
            assert(seq![x] + rest =~= items);
        }
    }
}


proof fn lemma_string_end_chars(s: Seq<char>, i: int)
    requires
        0 <= i <= s.len(),
    ensures
        forall|k: int| i <= k < string_end(s, i) ==> #[trigger] s[k] != '"' && s[k] != '\\',
    decreases s.len() - i,
{
    if 0 <= i < s.len() && s[i] != '"' && s[i] != '\\' {
        lemma_string_end_chars(s, i + 1);
    }
}

proof fn lemma_atom_end_chars(s: Seq<char>, i: int)
    requires
        0 <= i <= s.len(),
    ensures
        forall|k: int| i <= k < atom_end(s, i) ==> is_symbol_char(#[trigger] s[k]),
    decreases s.len() - i,
{
    if 0 <= i < s.len() && is_symbol_char(s[i]) {
        lemma_atom_end_chars(s, i + 1);
    }
}

proof fn lemma_trim_zeros(d: Seq<char>)
    ensures
        trim_zeros(d).len() <= d.len(),
        trim_zeros(d).len() == 0 || trim_zeros(d).last() != '0',
        trim_zeros(d) == d.subrange(0, trim_zeros(d).len() as int),
    decreases d.len(),
{
    if d.len() > 0 && d.last() == '0' {
        lemma_trim_zeros(d.drop_last());
        assert(d.drop_last().subrange(0, trim_zeros(d).len() as int) =~= d.subrange(
            0,
            trim_zeros(d).len() as int,
        ));
    } else {
        assert(d.subrange(0, d.len() as int) =~= d);
    }
}

/// An atom that reads as a datum reads as a well-formed one.
proof fn lemma_atom_wf(t: Seq<char>)
    requires
        t.len() > 0,
        forall|k: int| 0 <= k < t.len() ==> is_symbol_char(#[trigger] t[k]),
        atom_datum(t) is Ok,
    ensures
        wf_datum(atom_datum(t)->Ok_0),
{
    if !is_int_text(t) && is_float_text(t) {
        let sl = sign_len(t);
        let e = digits_end(t, sl);
        let ft = t.subrange(e + 1, t.len() as int);
        let frac = trim_zeros(ft);
        let digits = t.subrange(sl, e) + frac;
        let v = digits_value(digits);
        let m = signed(t, v as int);
        lemma_trim_zeros(ft);
        if frac.len() > 0 {
            crate::parser::lemma_digits_end(t, e + 1);
            assert(ft[frac.len() - 1] == t[e + 1 + frac.len() - 1]);
            assert(frac.last() == ft[frac.len() - 1]);
            assert(digits.last() == frac.last());
            assert(is_digit(ft[frac.len() - 1]));
            let c = digits.last();
            assert(v == digits_value(digits.drop_last()) * 10 + (c as nat - '0' as nat) as nat);
            assert((c as nat - '0' as nat) as nat != 0);
            assert(((c as nat - '0' as nat) as nat) < 10);
            let w = digits_value(digits.drop_last());
            let r = (c as nat - '0' as nat) as nat;
            assert(v % 10 != 0) by (nonlinear_arith)
                requires
                    v == w * 10 + r,
                    0 < r < 10,
            ;
            assert(m % 10 != 0) by (nonlinear_arith)
                requires
                    v % 10 != 0,
                    m == v || m == -v,
            ;
        }
    }
}

/// Whatever the reader produces is well formed.
pub proof fn lemma_read_datum_wf(s: Seq<char>, i: int)
    requires
        0 <= i <= s.len(),
        read_datum(s, i) is Ok,
    ensures
        wf_datum(read_datum(s, i)->Ok_0.0),
    decreases s.len() - i, 0int,
{
    let j = skip_blank(s, i, false);
    lemma_skip_blank_bounds(s, i, false);
    if s[j] == '(' {
        lemma_read_items_wf(s, j + 1);
    } else if s[j] == '"' {
        lemma_string_end_bounds(s, j + 1);
        lemma_string_end_chars(s, j + 1);
        let e = string_end(s, j + 1);
        let x = s.subrange(j + 1, e);
        assert forall|k: int| 0 <= k < x.len() implies #[trigger] x[k] != '"' && x[k] != '\\' by {
            assert(x[k] == s[j + 1 + k]);
        }
    } else {
        assert(is_symbol_char(s[j]));
        lemma_atom_end_bounds(s, j + 1);
        lemma_atom_end_chars(s, j);
        let e = atom_end(s, j);
        let t = s.subrange(j, e);
        assert forall|k: int| 0 <= k < t.len() implies is_symbol_char(#[trigger] t[k]) by {
            assert(t[k] == s[j + k]);
        }
        lemma_atom_wf(t);
    }
}

pub proof fn lemma_read_items_wf(s: Seq<char>, i: int)
    requires
        0 <= i <= s.len(),
        read_items(s, i) is Ok,
    ensures
        forall|k: int|
            0 <= k < read_items(s, i)->Ok_0.0.len() ==> wf_datum(
                #[trigger] read_items(s, i)->Ok_0.0[k],
            ),
    decreases s.len() - i, 1int,
{
    let j = skip_blank(s, i, false);
    lemma_skip_blank_bounds(s, i, false);
    if !(j < s.len() && s[j] == ')') {
        let (d, k) = read_datum(s, j)->Ok_0;
        lemma_read_datum_wf(s, j);
        lemma_read_items_wf(s, k);
        let ds = read_items(s, k)->Ok_0.0;
        assert forall|q: int| 0 <= q < (seq![d] + ds).len() implies wf_datum(
            #[trigger] (seq![d] + ds)[q],
        ) by {
            if q > 0 {
                assert((seq![d] + ds)[q] == ds[q - 1]);
            }
        }
    }
}

proof fn lemma_nodes_join(ns: Seq<NodeModel>, items: Seq<Datum>)
    requires
        ns.len() == items.len(),
        forall|i: int| 0 <= i < ns.len() ==> node_text(#[trigger] ns[i]) == datum_text(items[i]),
    ensures
        nodes_join(ns) == data_join(items),
    decreases ns.len(),
{
    if ns.len() > 1 {
        let n0 = ns.drop_last();
        let i0 = items.subrange(0, items.len() - 1);
        assert forall|i: int| 0 <= i < n0.len() implies node_text(#[trigger] n0[i]) == datum_text(
            i0[i],
        ) by {
            assert(n0[i] == ns[i]);
        }
        lemma_nodes_join(n0, i0);
        assert(node_text(ns.last()) == datum_text(items[items.len() - 1]));
    } else if ns.len() == 1 {
        assert(node_text(ns[0]) == datum_text(items[0]));
    }
}

/// Parsed instructions written back as a program text parse again as the
/// same instructions.
pub proof fn lemma_parse_round_trip(text: Seq<char>)
    requires
        parse_text(text) is Ok,
    ensures
        parse_text(parens(nodes_join(parse_text(text)->Ok_0))) == parse_text(text),
{
    let d = read_text(text)->Ok_0;
    let ns = parse_text(text)->Ok_0;
    lemma_read_datum_wf(text, 0);
    let all = d is List && forall|i: int|
        0 <= i < d->List_0.len() ==> #[trigger] instruction(d->List_0[i]) is Some;
    let big = if all {
        d
    } else {
        Datum::List(seq![d])
    };
    if all {
        let items = d->List_0;
        assert forall|i: int| 0 <= i < ns.len() implies node_text(#[trigger] ns[i]) == datum_text(
            items[i],
        ) by {
            lemma_instruction_text(items[i]);
        }
        lemma_nodes_join(ns, items);
    } else {
        lemma_instruction_text(d);
        assert(nodes_join(ns) == node_text(ns[0]));
        assert(data_join(seq![d]) == datum_text(d));
    }
    let r = parens(nodes_join(ns));
    assert(r == datum_text(big));
    assert(wf_datum(big));
    assert(r.subrange(0, r.len() as int) =~= r);
    lemma_read_datum_text(r, 0, big);
    assert(skip_blank(r, r.len() as int, false) == r.len());
    assert(read_text(r) == Ok::<Datum, crate::syntax::RMLParseError>(big));
    if !all {
        assert(instruction(seq![d][0]) is Some);
        assert(program(big) =~~= Ok::<Seq<NodeModel>, crate::syntax::RMLParseError>(ns)) by {
            assert(program(big)->Ok_0 =~= ns);
        }
    }
}

} // verus!
