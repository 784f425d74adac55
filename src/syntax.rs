//! The syntax of the register machine language as spec functions: how text
//! reads as a datum, and how a datum reads as instructions.

use vstd::prelude::*;
use crate::value::Number;

verus! {

/// A datum: what a literal or a parenthesised form reads as.
pub enum Datum {
    Float(Number),
    Num(int),
    List(Seq<Datum>),
    Str(Seq<char>),
    Symbol(Seq<char>),
}

/// An instruction, or a part of one.
pub enum NodeModel {
    Assignment(Seq<char>, Box<NodeModel>),
    Branch(Box<NodeModel>),
    Constant(Datum),
    GotoLabel(Box<NodeModel>),
    Label(Seq<char>),
    List(Seq<Datum>),
    Operation(Seq<char>, Seq<NodeModel>),
    PerformOp(Box<NodeModel>),
    Reg(Seq<char>),
    Restore(Seq<char>),
    Save(Seq<char>),
    Symbol(Seq<char>),
    TestOp(Box<NodeModel>),
}

/// Why text does not read.
#[derive(Debug, Clone, Copy, PartialEq, Eq, Structural)]
pub enum RMLParseError {
    /// An integer literal out of the range of `i32`.
    BadNum,
    /// A decimal literal whose digits do not fit in an `i64`.
    BadFloatPoint,
    /// A number or a string where an instruction was expected.
    BadSymbol,
    /// The text does not follow the grammar at this character position.
    ParseFailure { position: usize },
}

pub open spec fn is_space(c: char) -> bool {
    c == ' ' || c == '\t' || c == '\n' || c == '\r'
}

/// A character that may stand in a symbol or a number.
pub open spec fn is_symbol_char(c: char) -> bool {
    &&& !is_space(c)
    &&& c != '"'
    &&& c != '\''
    &&& c != '('
    &&& c != ')'
    &&& c != ';'
    &&& c != ','
    &&& c != '`'
    &&& c != '\\'
}

pub open spec fn is_digit(c: char) -> bool {
    '0' <= c <= '9'
}

/// The position of the first character at or after `i` that is neither
/// blank nor inside a `;` comment.
pub open spec fn skip_blank(s: Seq<char>, i: int, in_comment: bool) -> int
    decreases s.len() - i,
{
    if 0 <= i < s.len() {
        if in_comment {
            skip_blank(s, i + 1, s[i] != '\n')
        } else if is_space(s[i]) {
            skip_blank(s, i + 1, false)
        } else if s[i] == ';' {
            skip_blank(s, i + 1, true)
        } else {
            i
        }
    } else {
        i
    }
}

/// The end of the run of symbol characters that starts at `i`.
pub open spec fn atom_end(s: Seq<char>, i: int) -> int
    decreases s.len() - i,
{
    if 0 <= i < s.len() && is_symbol_char(s[i]) {
        atom_end(s, i + 1)
    } else {
        i
    }
}

/// The first quote or backslash at or after `i`, or the end of the text.
pub open spec fn string_end(s: Seq<char>, i: int) -> int
    decreases s.len() - i,
{
    if 0 <= i < s.len() && s[i] != '"' && s[i] != '\\' {
        string_end(s, i + 1)
    } else {
        i
    }
}

/// The end of the run of decimal digits that starts at `i`.
pub open spec fn digits_end(s: Seq<char>, i: int) -> int
    decreases s.len() - i,
{
    if 0 <= i < s.len() && is_digit(s[i]) {
        digits_end(s, i + 1)
    } else {
        i
    }
}

/// The value of a run of decimal digits.
pub open spec fn digits_value(d: Seq<char>) -> nat
    decreases d.len(),
{
    if d.len() == 0 {
        0
    } else {
        digits_value(d.drop_last()) * 10 + (d.last() as nat - '0' as nat) as nat
    }
}

/// The digits left when the trailing zeros are dropped.
pub open spec fn trim_zeros(d: Seq<char>) -> Seq<char>
    decreases d.len(),
{
    if d.len() > 0 && d.last() == '0' {
        trim_zeros(d.drop_last())
    } else {
        d
    }
}

pub open spec fn sign_len(t: Seq<char>) -> int {
    if t.len() > 0 && t[0] == '-' {
        1
    } else {
        0
    }
}

/// `-?digit+`
pub open spec fn is_int_text(t: Seq<char>) -> bool {
    let e = digits_end(t, sign_len(t));
    e > sign_len(t) && e == t.len()
}

/// `-?digit+.digit+`
pub open spec fn is_float_text(t: Seq<char>) -> bool {
    let e = digits_end(t, sign_len(t));
    &&& e > sign_len(t)
    &&& e < t.len()
    &&& t[e] == '.'
    &&& digits_end(t, e + 1) > e + 1
    &&& digits_end(t, e + 1) == t.len()
}

pub open spec fn signed(t: Seq<char>, magnitude: int) -> int {
    if sign_len(t) == 1 {
        -magnitude
    } else {
        magnitude
    }
}

/// What a run of symbol characters reads as: an integer, a decimal or a symbol.
pub open spec fn atom_datum(t: Seq<char>) -> Result<Datum, RMLParseError> {
    if is_int_text(t) {
        let n = signed(t, digits_value(t.subrange(sign_len(t), t.len() as int)) as int);
        if i32::MIN <= n <= i32::MAX {
            Ok(Datum::Num(n))
        } else {
            Err(RMLParseError::BadNum)
        }
    } else if is_float_text(t) {
        let e = digits_end(t, sign_len(t));
        let frac = trim_zeros(t.subrange(e + 1, t.len() as int));
        let digits = t.subrange(sign_len(t), e) + frac;
        let m = signed(t, digits_value(digits) as int);
        if i64::MIN <= m <= i64::MAX && frac.len() <= u32::MAX {
            Ok(Datum::Float(Number { mantissa: m as i64, scale: frac.len() as u32 }))
        } else {
            Err(RMLParseError::BadFloatPoint)
        }
    } else {
        Ok(Datum::Symbol(t))
    }
}

pub proof fn lemma_skip_blank_bounds(s: Seq<char>, i: int, c: bool)
    requires
        0 <= i <= s.len(),
    ensures
        i <= skip_blank(s, i, c) <= s.len(),
    decreases s.len() - i,
{
    if 0 <= i < s.len() {
        if c {
            lemma_skip_blank_bounds(s, i + 1, s[i] != '\n');
        } else if is_space(s[i]) {
            lemma_skip_blank_bounds(s, i + 1, false);
        } else if s[i] == ';' {
            lemma_skip_blank_bounds(s, i + 1, true);
        }
    }
}

pub proof fn lemma_atom_end_bounds(s: Seq<char>, i: int)
    requires
        0 <= i <= s.len(),
    ensures
        i <= atom_end(s, i) <= s.len(),
    decreases s.len() - i,
{
    if 0 <= i < s.len() && is_symbol_char(s[i]) {
        lemma_atom_end_bounds(s, i + 1);
    }
}

pub proof fn lemma_string_end_bounds(s: Seq<char>, i: int)
    requires
        0 <= i <= s.len(),
    ensures
        i <= string_end(s, i) <= s.len(),
    decreases s.len() - i,
{
    if 0 <= i < s.len() && s[i] != '"' && s[i] != '\\' {
        lemma_string_end_bounds(s, i + 1);
    }
}

/// Read one datum, after blanks, starting at `i`; on success, also the
/// position just after it.
pub open spec fn read_datum(s: Seq<char>, i: int) -> Result<(Datum, int), RMLParseError>
    decreases s.len() - i, 0int,
    when 0 <= i <= s.len()
{
    let j = skip_blank(s, i, false);
    proof {
        lemma_skip_blank_bounds(s, i, false);
    }
    if j >= s.len() {
        Err(RMLParseError::ParseFailure { position: j as usize })
    } else if s[j] == '(' {
        match read_items(s, j + 1) {
            Ok((items, k)) => Ok((Datum::List(items), k)),
            Err(e) => Err(e),
        }
    } else if s[j] == '"' {
        let e = string_end(s, j + 1);
        if e < s.len() && s[e] == '"' {
            Ok((Datum::Str(s.subrange(j + 1, e)), e + 1))
        } else {
            Err(RMLParseError::ParseFailure { position: e as usize })
        }
    } else if is_symbol_char(s[j]) {
        let e = atom_end(s, j);
        match atom_datum(s.subrange(j, e)) {
            Ok(d) => Ok((d, e)),
            Err(x) => Err(x),
        }
    } else {
        Err(RMLParseError::ParseFailure { position: j as usize })
    }
}

/// Read the data of a list up to and including its closing parenthesis.
pub open spec fn read_items(s: Seq<char>, i: int) -> Result<(Seq<Datum>, int), RMLParseError>
    decreases s.len() - i, 1int,
    when 0 <= i <= s.len()
{
    let j = skip_blank(s, i, false);
    proof {
        lemma_skip_blank_bounds(s, i, false);
    }
    if j < s.len() && s[j] == ')' {
        Ok((Seq::empty(), j + 1))
    } else {
        match read_datum(s, j) {
            Ok((d, k)) => if j < k <= s.len() {
                match read_items(s, k) {
                    Ok((ds, m)) => Ok((seq![d] + ds, m)),
                    Err(e) => Err(e),
                }
            } else {
                Err(RMLParseError::ParseFailure { position: j as usize })
            },
            Err(e) => Err(e),
        }
    }
}

/// The whole text as one datum, with nothing but blanks after it.
pub open spec fn read_text(s: Seq<char>) -> Result<Datum, RMLParseError> {
    match read_datum(s, 0) {
        Ok((d, k)) => {
            let e = skip_blank(s, k, false);
            if e == s.len() {
                Ok(d)
            } else {
                Err(RMLParseError::ParseFailure { position: e as usize })
            }
        },
        Err(e) => Err(e),
    }
}

/// `(<keyword> <symbol>)`: the symbol's name.
pub open spec fn named_form(d: Datum, keyword: Seq<char>) -> Option<Seq<char>> {
    match d {
        Datum::List(items) => if items.len() == 2 && items[0] == Datum::Symbol(keyword)
            && items[1] is Symbol {
            Some(items[1]->Symbol_0)
        } else {
            None
        },
        _ => None,
    }
}

/// `(const <literal>)`
pub open spec fn const_form(d: Datum) -> Option<NodeModel> {
    match d {
        Datum::List(items) => if items.len() == 2 && items[0] == Datum::Symbol("const"@) {
            Some(NodeModel::Constant(items[1]))
        } else {
            None
        },
        _ => None,
    }
}

/// `(reg <name>)`
pub open spec fn reg_form(d: Datum) -> Option<NodeModel> {
    match named_form(d, "reg"@) {
        Some(n) => Some(NodeModel::Reg(n)),
        None => None,
    }
}

/// `(label <name>)`
pub open spec fn label_form(d: Datum) -> Option<NodeModel> {
    match named_form(d, "label"@) {
        Some(n) => Some(NodeModel::Label(n)),
        None => None,
    }
}

/// An operation argument: `(const ...)` or `(reg ...)`.
pub open spec fn op_arg(d: Datum) -> Option<NodeModel> {
    if const_form(d) is Some {
        const_form(d)
    } else {
        reg_form(d)
    }
}

/// `(op <name>) <arg> ...`, laid out flat in the enclosing form.
pub open spec fn op_form(items: Seq<Datum>) -> Option<NodeModel> {
    if items.len() >= 1 && named_form(items[0], "op"@) is Some && (forall|i: int|
        1 <= i < items.len() ==> #[trigger] op_arg(items[i]) is Some) {
        Some(
            NodeModel::Operation(
                named_form(items[0], "op"@)->Some_0,
                Seq::new((items.len() - 1) as nat, |i: int| op_arg(items[i + 1])->Some_0),
            ),
        )
    } else {
        None
    }
}

/// The value of an assignment: `(const ...)`, `(reg ...)`, `(label ...)` or
/// an operation.
pub open spec fn assign_source(items: Seq<Datum>) -> Option<NodeModel> {
    if items.len() == 1 && const_form(items[0]) is Some {
        const_form(items[0])
    } else if items.len() == 1 && reg_form(items[0]) is Some {
        reg_form(items[0])
    } else if items.len() == 1 && label_form(items[0]) is Some {
        label_form(items[0])
    } else {
        op_form(items)
    }
}

pub open spec fn boxed(n: Option<NodeModel>, f: spec_fn(Box<NodeModel>) -> NodeModel) -> Option<
    NodeModel,
> {
    match n {
        Some(x) => Some(f(Box::new(x))),
        None => None,
    }
}

/// A list that is one of the keyword forms, as that instruction.
pub open spec fn keyword_instruction(items: Seq<Datum>) -> Option<NodeModel> {
    if items.len() == 0 || !(items[0] is Symbol) {
        None
    } else {
        let k = items[0]->Symbol_0;
        let rest = items.subrange(1, items.len() as int);
        if k == "assign"@ {
            if items.len() >= 3 && items[1] is Symbol {
                match assign_source(items.subrange(2, items.len() as int)) {
                    Some(v) => Some(NodeModel::Assignment(items[1]->Symbol_0, Box::new(v))),
                    None => None,
                }
            } else {
                None
            }
        } else if k == "branch"@ {
            if items.len() == 2 {
                boxed(label_form(items[1]), |b: Box<NodeModel>| NodeModel::Branch(b))
            } else {
                None
            }
        } else if k == "goto"@ {
            if items.len() == 2 && label_form(items[1]) is Some {
                boxed(label_form(items[1]), |b: Box<NodeModel>| NodeModel::GotoLabel(b))
            } else if items.len() == 2 {
                boxed(reg_form(items[1]), |b: Box<NodeModel>| NodeModel::GotoLabel(b))
            } else {
                None
            }
        } else if k == "save"@ || k == "restore"@ {
            if items.len() == 2 && items[1] is Symbol {
                if k == "save"@ {
                    Some(NodeModel::Save(items[1]->Symbol_0))
                } else {
                    Some(NodeModel::Restore(items[1]->Symbol_0))
                }
            } else {
                None
            }
        } else if k == "test"@ {
            boxed(op_form(rest), |b: Box<NodeModel>| NodeModel::TestOp(b))
        } else if k == "perform"@ {
            boxed(op_form(rest), |b: Box<NodeModel>| NodeModel::PerformOp(b))
        } else if k == "const"@ {
            const_form(Datum::List(items))
        } else if k == "reg"@ {
            reg_form(Datum::List(items))
        } else if k == "label"@ {
            label_form(Datum::List(items))
        } else {
            None
        }
    }
}

/// A datum as an instruction: a keyword form, a label declaration (a bare
/// symbol), or else a list literal. Numbers and strings are no instruction.
pub open spec fn instruction(d: Datum) -> Option<NodeModel> {
    match d {
        Datum::Symbol(s) => Some(NodeModel::Symbol(s)),
        Datum::List(items) => if keyword_instruction(items) is Some {
            keyword_instruction(items)
        } else {
            Some(NodeModel::List(items))
        },
        _ => None,
    }
}

/// A program: a parenthesised sequence of instructions, or else one instruction.
pub open spec fn program(d: Datum) -> Result<Seq<NodeModel>, RMLParseError> {
    match d {
        Datum::List(items) => if forall|i: int|
            0 <= i < items.len() ==> #[trigger] instruction(items[i]) is Some {
            Ok(Seq::new(items.len(), |i: int| instruction(items[i])->Some_0))
        } else {
            Ok(seq![instruction(d)->Some_0])
        },
        _ => if instruction(d) is Some {
            Ok(seq![instruction(d)->Some_0])
        } else {
            Err(RMLParseError::BadSymbol)
        },
    }
}

/// What a text parses as: its one datum read as a program.
pub open spec fn parse_text(s: Seq<char>) -> Result<Seq<NodeModel>, RMLParseError> {
    match read_text(s) {
        Ok(d) => program(d),
        Err(e) => Err(e),
    }
}

} // verus!
