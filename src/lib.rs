//! A register-machine simulator: a reader for the register machine language,
//! an assembler, and a machine that executes the assembled instructions.
//!
//! `make_machine` reads and assembles a controller text and sets up the
//! registers and procedure table. The machine then runs one instruction per
//! `execute` (or `start`, from the first instruction). When an instruction
//! applies a primitive procedure, the step returns `Step::Call` with the
//! procedure's name and evaluated arguments; the caller computes the result
//! and hands it to `resume`. Every step is specified by `machine::run_step`.

pub mod errors;
pub mod value;
pub mod register;
pub mod render;
pub mod round_trip;
pub mod stack;
pub mod syntax;
pub mod text;
pub mod parser;
pub mod assemble;
pub mod convert;
pub mod table;
pub mod laws;
pub mod machine;

use vstd::prelude::*;
use crate::assemble::{assemble, has_duplicate_label, instructions_of, label_entries};
use crate::errors::{ErrorModel, MResult, MachineError};
use crate::machine::{empty_stack, with_procedures, Machine, MachineModel};
use crate::parser::RMLValue;
use crate::register::unassigned;
use crate::syntax::{parse_text, Datum};
use crate::table::to_map;
use crate::value::{Number, Procedure, Value, ValueModel};

verus! {

/// The value a literal stands for. Integers widen to decimals; a list
/// literal becomes a list of exactly its elements, with no terminator added.
pub open spec fn datum_value(d: Datum) -> ValueModel
    decreases d,
{
    match d {
        Datum::Float(n) => ValueModel::Num(n),
        Datum::Num(n) => ValueModel::Num(Number { mantissa: n as i64, scale: 0 }),
        Datum::List(items) => ValueModel::List(
            Seq::new(
                items.len(),
                |i: int|
                    if 0 <= i < items.len() {
                        datum_value(items[i])
                    } else {
                        ValueModel::Nil
                    },
            ),
        ),
        Datum::Str(s) => ValueModel::String(s),
        Datum::Symbol(s) => ValueModel::Symbol(s),
    }
}

/// The value a literal stands for.
pub fn rmlvalue_to_value(r: &RMLValue) -> (v: Value)
    ensures
        v.model() == datum_value(r.datum()),
    decreases r,
{
    match r {
        RMLValue::Float(f) => Value::Num(*f),
        RMLValue::Num(n) => Value::Num(Number::from_int(*n as i64)),
        RMLValue::Str(s) => Value::String(s.clone()),
        RMLValue::Symbol(s) => Value::Symbol(s.clone()),
        RMLValue::List(l) => {
            let mut list: Vec<Value> = Vec::new();
            let mut i: usize = 0;
            proof {
                RMLValue::lemma_list_datum(*l);
            }
            while i < l.len()
                invariant
                    i <= l.len(),
                    *r == RMLValue::List(*l),
                    list.len() == i,
                    forall|j: int|
                        0 <= j < i ==> #[trigger] list[j].model() == datum_value(l[j].datum()),
                decreases l.len() - i,
            {
                proof {
                    assert(decreases_to!(*r => (*r)->List_0));
                }
                list.push(rmlvalue_to_value(&l[i]));
                i += 1;
            }
            let v = Value::List(list);
            proof {
                Value::lemma_list_model(list);
                RMLValue::lemma_list_datum(*l);
                let d = r.datum();
                assert(datum_value(d)->List_0 =~= Value::models(list@));
            }
            v
        },
    }
}


/// The first name that repeats an earlier one.
pub open spec fn first_repeat(names: Seq<Seq<char>>) -> Option<Seq<char>>
    decreases names.len(),
{
    if names.len() == 0 {
        None
    } else {
        match first_repeat(names.drop_last()) {
            Some(n) => Some(n),
            None => if names.drop_last().contains(names.last()) {
                Some(names.last())
            } else {
                None
            },
        }
    }
}

/// Registers of these names, each holding `*unassigned*`.
pub open spec fn fresh_registers(names: Seq<Seq<char>>) -> Map<Seq<char>, ValueModel>
    decreases names.len(),
{
    if names.len() == 0 {
        Map::empty()
    } else {
        fresh_registers(names.drop_last()).insert(names.last(), unassigned())
    }
}

pub open spec fn names_of(names: Seq<&str>) -> Seq<Seq<char>> {
    Seq::new(names.len(), |i: int| names[i]@)
}

/// The procedures of a built machine: the given ones, then `read` (no
/// argument) and `print` (one argument), which the builder always provides.
pub open spec fn builder_procedures(procedures: Seq<Procedure>) -> Map<Seq<char>, nat> {
    with_procedures(Map::empty(), procedures).insert("read"@, 0).insert("print"@, 1)
}

/// Builds a machine with the given registers, procedures and controller.
///
/// The controller is assembled first: text that does not parse or declares a
/// label twice gives `UnableAssemble`. A register name given twice gives
/// `AllocateFailure` of the first repeated name.
pub fn make_machine(
    register_names: Vec<&str>,
    procedures: &Vec<Procedure>,
    controller_text: &str,
) -> (r: MResult<Machine>)
    ensures
        ({
            let p = parse_text(controller_text@);
            p is Err || has_duplicate_label(p->Ok_0)
        }) ==> r is Err && r->Err_0 is UnableAssemble,
        ({
            let p = parse_text(controller_text@);
            &&& p is Ok
            &&& !has_duplicate_label(p->Ok_0)
            &&& first_repeat(names_of(register_names@)) is Some
        }) ==> r is Err && r->Err_0.model() == ErrorModel::AllocateFailure(
            first_repeat(names_of(register_names@))->Some_0,
        ),
        ({
            let p = parse_text(controller_text@);
            &&& p is Ok
            &&& !has_duplicate_label(p->Ok_0)
            &&& first_repeat(names_of(register_names@)) is None
        }) ==> {
            let ns = parse_text(controller_text@)->Ok_0;
            &&& r is Ok
            &&& r->Ok_0.wf()
            &&& r->Ok_0.view() == (MachineModel {
                pc: 0,
                flag: unassigned(),
                stack: empty_stack(),
                instructions: instructions_of(ns),
                labels: to_map(label_entries(ns)),
                procedures: builder_procedures(procedures@),
                registers: fresh_registers(names_of(register_names@)),
            })
        },
{
    let (insts, labels) = match assemble(controller_text) {
        Ok(program) => program,
        Err(msg) => {
            return Err(MachineError::UnableAssemble(msg));
        },
    };
    let mut machine = Machine::new();
    let ghost names = names_of(register_names@);
    let ghost ns = parse_text(controller_text@)->Ok_0;
    assert(parse_text(controller_text@) is Ok && !has_duplicate_label(ns));
    let mut i: usize = 0;
    proof {
        assert(names.subrange(0, 0) =~= Seq::<Seq<char>>::empty());
        assert(machine.view().registers =~= fresh_registers(names.subrange(0, 0)));
    }
    while i < register_names.len()
        invariant
            i <= register_names.len(),
            names == names_of(register_names@),
            parse_text(controller_text@) is Ok,
            ns == parse_text(controller_text@)->Ok_0,
            !has_duplicate_label(ns),
            machine.wf(),
            first_repeat(names.subrange(0, i as int)) is None,
            machine.view() == (MachineModel {
                registers: fresh_registers(names.subrange(0, i as int)),
                ..Machine::new_model()
            }),
        decreases register_names.len() - i,
    {
        let ghost pre = names.subrange(0, i as int);
        proof {
            assert(names.subrange(0, i + 1).drop_last() =~= pre);
            assert(names.subrange(0, i + 1).last() == register_names[i as int]@);
            lemma_fresh_registers_domain(pre);
        }
        match machine.allocate_register(register_names[i]) {
            Ok(_) => {},
            Err(e) => {
                proof {
                    lemma_first_repeat_prefix(names, i + 1);
                }
                return Err(e);
            },
        }
        i += 1;
    }
    proof {
        assert(names.subrange(0, register_names.len() as int) =~= names);
    }
    machine.install_procedures(procedures);
    machine.install_procedure(Procedure::new("read", 0));
    machine.install_procedure(Procedure::new("print", 1));
    machine.install_instructions(insts);
    machine.install_labels(labels);
    Ok(machine)
}

proof fn lemma_fresh_registers_domain(names: Seq<Seq<char>>)
    ensures
        forall|k: Seq<char>| #[trigger] fresh_registers(names).contains_key(k) <==> names.contains(k),
    decreases names.len(),
{
    if names.len() > 0 {
        lemma_fresh_registers_domain(names.drop_last());
        assert forall|k: Seq<char>| #[trigger] fresh_registers(names).contains_key(k) <==> names.contains(k) by {
            assert(fresh_registers(names.drop_last()).contains_key(k) <==> names.drop_last().contains(k));
            if names.drop_last().contains(k) {
                let j = choose|j: int| 0 <= j < names.drop_last().len() && names.drop_last()[j] == k;
                assert(names[j] == k);
            }
            if names.contains(k) && k != names.last() {
                let j = choose|j: int| 0 <= j < names.len() && names[j] == k;
                assert(j != names.len() - 1);
                assert(names.drop_last()[j] == k);
            }
            if k == names.last() {
                assert(names[names.len() - 1] == k);
            }
        }
    }
}

proof fn lemma_first_repeat_prefix(names: Seq<Seq<char>>, n: int)
    requires
        0 < n <= names.len(),
        first_repeat(names.subrange(0, n)) is Some,
    ensures
        first_repeat(names) == first_repeat(names.subrange(0, n)),
    decreases names.len(),
{
    if n == names.len() {
        assert(names.subrange(0, n) =~= names);
    } else {
        assert(names.drop_last().subrange(0, n) =~= names.subrange(0, n));
        lemma_first_repeat_prefix(names.drop_last(), n);
    }
}

} // verus!
