//! The register machine: registers, a stack, an instruction sequence with
//! its label table, and a table of primitive procedures.
//!
//! The machine executes one instruction per call of `execute`. An instruction
//! that applies a primitive procedure hands back `Step::Call` with the
//! procedure's name and its evaluated arguments; whoever runs the machine
//! applies the procedure and hands the result back through `resume`.

use vstd::prelude::*;
use crate::assemble::label_view;
use crate::datum_value;
use crate::errors::{ErrorModel, MachineError, MResult, ProcedureError, RegisterError, TypeError};
use crate::parser::{copy_rml_values, RMLNode, RMLValue};
use crate::register::{unassigned, Register};
use crate::stack::{Stack, StackModel};
use crate::syntax::{Datum, NodeModel};
use crate::table::{distinct_names, find_last, to_map};
use crate::text::is_word;
use crate::rmlvalue_to_value;
use crate::value::{Procedure, Value, ValueModel};

verus! {

/// What a machine holds.
pub struct MachineModel {
    /// Index of the next instruction.
    pub pc: nat,
    pub flag: ValueModel,
    pub stack: StackModel,
    pub instructions: Seq<NodeModel>,
    /// Where each label's instructions start.
    pub labels: Map<Seq<char>, nat>,
    /// The least number of arguments of each installed procedure.
    pub procedures: Map<Seq<char>, nat>,
    pub registers: Map<Seq<char>, ValueModel>,
}

/// What one step of execution asks of whoever runs the machine.
pub enum StepModel {
    Done,
    Continue,
    Call(Seq<char>, Seq<ValueModel>),
    PrintStatistics(nat, nat),
}

pub open spec fn advance(m: MachineModel) -> MachineModel {
    MachineModel { pc: m.pc + 1, ..m }
}

pub open spec fn jump(m: MachineModel, label: Seq<char>) -> MachineModel {
    MachineModel { pc: m.labels[label], ..m }
}

/// Assign `v` to register `r` and go on with the next instruction.
pub open spec fn assign(m: MachineModel, r: Seq<char>, v: ValueModel) -> (
    MachineModel,
    Result<StepModel, ErrorModel>,
) {
    if m.registers.contains_key(r) {
        (advance(MachineModel { registers: m.registers.insert(r, v), ..m }), Ok(StepModel::Continue))
    } else {
        (m, Err(ErrorModel::LookupFailure(r)))
    }
}

pub open spec fn done_symbol() -> ValueModel {
    ValueModel::Symbol("Done"@)
}

pub open spec fn empty_stack() -> StackModel {
    StackModel { items: Seq::empty(), pushes: 0, pops: 0, max_depth: 0 }
}

pub open spec fn pushed(s: StackModel, v: ValueModel) -> StackModel {
    StackModel {
        items: s.items.push(v),
        pushes: s.pushes + 1,
        pops: s.pops,
        max_depth: if s.items.len() + 1 > s.max_depth {
            s.items.len() + 1
        } else {
            s.max_depth
        },
    }
}

pub open spec fn popped(s: StackModel) -> StackModel {
    StackModel { items: s.items.drop_last(), pushes: s.pushes, pops: s.pops + 1, ..s }
}

/// The value of an operation argument: a register's current content, or a
/// constant.
pub open spec fn arg_value(m: MachineModel, a: NodeModel) -> Result<ValueModel, ErrorModel> {
    match a {
        NodeModel::Reg(r) => if m.registers.contains_key(r) {
            Ok(m.registers[r])
        } else {
            Err(ErrorModel::LookupFailure(r))
        },
        NodeModel::Constant(d) => Ok(datum_value(d)),
        _ => Err(ErrorModel::TypeError("operation argument"@, None)),
    }
}

/// The arguments' values, left to right; the first failure stops.
pub open spec fn arg_values(m: MachineModel, args: Seq<NodeModel>) -> Result<
    Seq<ValueModel>,
    ErrorModel,
>
    decreases args.len(),
{
    if args.len() == 0 {
        Ok(Seq::empty())
    } else {
        match arg_values(m, args.drop_last()) {
            Ok(vs) => match arg_value(m, args.last()) {
                Ok(v) => Ok(vs.push(v)),
                Err(e) => Err(e),
            },
            Err(e) => Err(e),
        }
    }
}

/// What a procedure's result `v` does to the instruction at `pc`: an
/// assignment stores it, a perform drops it, a test stores it in `flag` and
/// must be a boolean.
pub open spec fn apply_result(m: MachineModel, v: ValueModel) -> (
    MachineModel,
    Result<StepModel, ErrorModel>,
) {
    if m.pc >= m.instructions.len() {
        (m, Err(ErrorModel::NoMoreInsts))
    } else {
        match m.instructions[m.pc as int] {
            NodeModel::Assignment(r, _) => assign(m, r, v),
            NodeModel::PerformOp(_) => (advance(m), Ok(StepModel::Continue)),
            NodeModel::TestOp(_) => if v is Boolean {
                (advance(MachineModel { flag: v, ..m }), Ok(StepModel::Continue))
            } else {
                (m, Err(ErrorModel::TypeError("bool"@, None)))
            },
            _ => (m, Err(ErrorModel::TypeError("operation"@, None))),
        }
    }
}

/// Apply the operation `op` for the instruction at `pc`: the two stack
/// procedures run inside the machine, every other one is handed out.
pub open spec fn invoke(m: MachineModel, op: NodeModel) -> (
    MachineModel,
    Result<StepModel, ErrorModel>,
) {
    match op {
        NodeModel::Operation(name, args) => match arg_values(m, args) {
            Err(e) => (m, Err(e)),
            Ok(vs) => if name == "initialize-stack"@ {
                apply_result(MachineModel { stack: empty_stack(), ..m }, done_symbol())
            } else if name == "print-stack-statistics"@ {
                let (m2, r) = apply_result(m, done_symbol());
                match r {
                    Ok(_) => (m2, Ok(StepModel::PrintStatistics(m.stack.pushes, m.stack.max_depth))),
                    Err(e) => (m2, Err(e)),
                }
            } else if !m.procedures.contains_key(name) {
                (m, Err(ErrorModel::NotFound(name)))
            } else if vs.len() < m.procedures[name] {
                (m, Err(ErrorModel::ArgsTooFew(name, m.procedures[name], vs.len())))
            } else {
                (m, Ok(StepModel::Call(name, vs)))
            },
        },
        _ => (m, Err(ErrorModel::TypeError("operation"@, None))),
    }
}

/// The label a `branch` or `goto` names: written out, or held by a register
/// as a symbol.
pub open spec fn label_name(m: MachineModel, target: NodeModel) -> Result<Seq<char>, ErrorModel> {
    match target {
        NodeModel::Label(l) => Ok(l),
        NodeModel::Reg(r) => if !m.registers.contains_key(r) {
            Err(ErrorModel::LookupFailure(r))
        } else {
            match m.registers[r] {
                ValueModel::Symbol(l) => Ok(l),
                _ => Err(ErrorModel::UnmatchedContentType(r, "Value::Symbol"@)),
            }
        },
        _ => Err(ErrorModel::TypeError("label"@, None)),
    }
}

/// One step of execution from `m`: the machine after it and what it asks for.
pub open spec fn run_step(m: MachineModel) -> (MachineModel, Result<StepModel, ErrorModel>) {
    if m.pc == m.instructions.len() {
        (m, Ok(StepModel::Done))
    } else if m.pc > m.instructions.len() {
        (m, Err(ErrorModel::NoMoreInsts))
    } else {
        match m.instructions[m.pc as int] {
            NodeModel::Assignment(r, src) => match *src {
                NodeModel::Reg(x) => if m.registers.contains_key(x) {
                    assign(m, r, m.registers[x])
                } else {
                    (m, Err(ErrorModel::LookupFailure(x)))
                },
                NodeModel::Constant(d) => assign(m, r, datum_value(d)),
                NodeModel::Label(s) => assign(m, r, ValueModel::Symbol(s)),
                NodeModel::Symbol(s) => assign(m, r, ValueModel::Symbol(s)),
                NodeModel::List(ds) => assign(m, r, datum_value(Datum::List(ds))),
                NodeModel::Operation(_, _) => invoke(m, *src),
                _ => (m, Err(ErrorModel::TypeError("assignment source"@, None))),
            },
            NodeModel::Branch(target) => match label_name(m, *target) {
                Err(e) => (m, Err(e)),
                Ok(l) => if !m.labels.contains_key(l) {
                    (m, Err(ErrorModel::UnknownLabel(l)))
                } else {
                    match m.flag {
                        ValueModel::Boolean(true) => (jump(m, l), Ok(StepModel::Continue)),
                        ValueModel::Boolean(false) => (advance(m), Ok(StepModel::Continue)),
                        _ => (m, Err(ErrorModel::TypeError("bool"@, None))),
                    }
                },
            },
            NodeModel::GotoLabel(target) => match label_name(m, *target) {
                Err(e) => (m, Err(e)),
                Ok(l) => if !m.labels.contains_key(l) {
                    (m, Err(ErrorModel::UnknownLabel(l)))
                } else {
                    (jump(m, l), Ok(StepModel::Continue))
                },
            },
            NodeModel::PerformOp(op) => invoke(m, *op),
            NodeModel::TestOp(op) => invoke(m, *op),
            NodeModel::Save(r) => if !m.registers.contains_key(r) {
                (m, Err(ErrorModel::LookupFailure(r)))
            } else if m.stack.pushes >= u64::MAX {
                (m, Err(ErrorModel::StackError("Push counter exhausted: PUSH"@)))
            } else {
                (
                    advance(MachineModel { stack: pushed(m.stack, m.registers[r]), ..m }),
                    Ok(StepModel::Continue),
                )
            },
            NodeModel::Restore(r) => if m.stack.items.len() == 0 {
                (m, Err(ErrorModel::StackError("Empty stack: POP"@)))
            } else {
                let m2 = MachineModel { stack: popped(m.stack), ..m };
                assign(m2, r, m.stack.items.last())
            },
            _ => (m, Err(ErrorModel::TypeError("instruction"@, None))),
        }
    }
}

/// What one step of execution asks of whoever runs the machine.
#[derive(Debug, PartialEq)]
pub enum Step {
    /// The program ran off its end: the machine is done.
    Done,
    /// One instruction was executed; call `execute` again.
    Continue,
    /// Apply the procedure `name` to `args` and hand its result to `resume`.
    Call { name: String, args: Vec<Value> },
    /// `print-stack-statistics` was executed: show these counts, then call
    /// `execute` again.
    PrintStatistics { pushes: u64, max_depth: usize },
}

impl Step {
    pub open spec fn model(&self) -> StepModel {
        match self {
            Step::Done => StepModel::Done,
            Step::Continue => StepModel::Continue,
            Step::Call { name, args } => StepModel::Call(name@, Value::models(args@)),
            Step::PrintStatistics { pushes, max_depth } => StepModel::PrintStatistics(
                *pushes as nat,
                *max_depth as nat,
            ),
        }
    }
}

pub open spec fn step_result(r: MResult<Step>) -> Result<StepModel, ErrorModel> {
    match r {
        Ok(s) => Ok(s.model()),
        Err(e) => Err(e.model()),
    }
}

pub open spec fn procedure_entries(ps: Seq<Procedure>) -> Seq<(Seq<char>, nat)> {
    Seq::new(ps.len(), |i: int| (ps[i].name@, ps[i].min_arg_num as nat))
}

pub open spec fn register_entries(rs: Seq<(String, Register)>) -> Seq<(Seq<char>, ValueModel)> {
    Seq::new(rs.len(), |i: int| (rs[i].0@, rs[i].1.view()))
}

/// The procedure table after installing `ps` in order; a later one replaces
/// an earlier one of the same name.
pub open spec fn with_procedures(t: Map<Seq<char>, nat>, ps: Seq<Procedure>) -> Map<Seq<char>, nat>
    decreases ps.len(),
{
    if ps.len() == 0 {
        t
    } else {
        with_procedures(t, ps.drop_last()).insert(ps.last().name@, ps.last().min_arg_num as nat)
    }
}

pub struct Machine {
    pc: usize,
    flag: Register,
    stack: Stack,
    the_inst_seq: Vec<RMLNode>,
    the_labels: Vec<(String, usize)>,
    the_procedures: Vec<Procedure>,
    register_table: Vec<(String, Register)>,
}

impl Machine {
    pub closed spec fn view(&self) -> MachineModel {
        MachineModel {
            pc: self.pc as nat,
            flag: self.flag.view(),
            stack: self.stack.view(),
            instructions: RMLNode::models(self.the_inst_seq@),
            labels: to_map(label_view(self.the_labels@)),
            procedures: to_map(procedure_entries(self.the_procedures@)),
            registers: to_map(register_entries(self.register_table@)),
        }
    }

    pub closed spec fn wf(&self) -> bool {
        &&& self.stack.wf()
        &&& distinct_names(procedure_entries(self.the_procedures@))
        &&& distinct_names(register_entries(self.register_table@))
    }

    /// The stack's counters agree with what it holds: every push is still on
    /// the stack or has been popped.
    pub proof fn lemma_stack_balance(&self)
        requires
            self.wf(),
        ensures
            self.view().stack.pushes == self.view().stack.pops + self.view().stack.items.len(),
            self.view().stack.max_depth >= self.view().stack.items.len(),
    {
        self.stack.lemma_wf();
    }

    /// A machine with no registers, procedures or instructions.
    pub open spec fn new_model() -> MachineModel {
        MachineModel {
            pc: 0,
            flag: unassigned(),
            stack: empty_stack(),
            instructions: Seq::empty(),
            labels: Map::empty(),
            procedures: Map::empty(),
            registers: Map::empty(),
        }
    }

    pub fn new() -> (r: Machine)
        ensures
            r.wf(),
            r.view() == Machine::new_model(),
    {
        let r = Machine {
            pc: 0,
            flag: Register::new(),
            stack: Stack::new(),
            the_inst_seq: Vec::new(),
            the_labels: Vec::new(),
            the_procedures: Vec::new(),
            register_table: Vec::new(),
        };
        proof {
            assert(RMLNode::models(r.the_inst_seq@) =~= Seq::empty());
            assert(label_view(r.the_labels@) =~= Seq::empty());
            assert(procedure_entries(r.the_procedures@) =~= Seq::empty());
            assert(register_entries(r.register_table@) =~= Seq::empty());
            assert(r.stack.view().items =~= Seq::<ValueModel>::empty());
        }
        r
    }

    /// Add a procedure; one already installed under its name is replaced.
    pub fn install_procedure(&mut self, proc: Procedure)
        requires
            old(self).wf(),
        ensures
            final(self).wf(),
            final(self).view() == (MachineModel {
                procedures: old(self).view().procedures.insert(proc.name@, proc.min_arg_num as nat),
                ..old(self).view()
            }),
    {
        let ghost old_entries = procedure_entries(self.the_procedures@);
        let mut i: usize = 0;
        while i < self.the_procedures.len()
            invariant
                i <= self.the_procedures.len(),
                *self == *old(self),
                self.wf(),
                old_entries == procedure_entries(self.the_procedures@),
                forall|j: int| 0 <= j < i ==> #[trigger] self.the_procedures[j].name@ != proc.name@,
            decreases self.the_procedures.len() - i,
        {
            if self.the_procedures[i].name == proc.name {
                let ghost entry = (proc.name@, proc.min_arg_num as nat);
                self.the_procedures.set(i, proc);
                proof {
                    assert(procedure_entries(self.the_procedures@) =~= old_entries.update(
                        i as int,
                        entry,
                    ));
                    assert forall|j: int|
                        i < j < old_entries.len() implies #[trigger] old_entries[j].0
                        != old_entries[i as int].0 by {
                        assert(old_entries[i as int].0 == entry.0);
                    }
                    crate::table::lemma_to_map_update(old_entries, i as int, entry.1);
                    assert(procedure_entries(self.the_procedures@) =~= old_entries.update(
                        i as int,
                        (old_entries[i as int].0, entry.1),
                    ));
                }
                return;
            }
            i += 1;
        }
        let ghost entry = (proc.name@, proc.min_arg_num as nat);
        self.the_procedures.push(proc);
        proof {
            assert(procedure_entries(self.the_procedures@) =~= old_entries.push(entry));
            assert(procedure_entries(self.the_procedures@).drop_last() =~= old_entries);
            assert forall|j: int| 0 <= j < old_entries.len() implies #[trigger] old_entries[j].0
                != entry.0 by {
                assert(old_entries[j].0 == old(self).the_procedures[j].name@);
            }
        }
    }

    /// Install each procedure in order.
    pub fn install_procedures(&mut self, procedures: &Vec<Procedure>)
        requires
            old(self).wf(),
        ensures
            final(self).wf(),
            final(self).view() == (MachineModel {
                procedures: with_procedures(old(self).view().procedures, procedures@),
                ..old(self).view()
            }),
    {
        let mut i: usize = 0;
        while i < procedures.len()
            invariant
                i <= procedures.len(),
                self.wf(),
                self.view() == (MachineModel {
                    procedures: with_procedures(
                        old(self).view().procedures,
                        procedures@.subrange(0, i as int),
                    ),
                    ..old(self).view()
                }),
            decreases procedures.len() - i,
        {
            let p = procedures[i].clone();
            self.install_procedure(p);
            proof {
                assert(procedures@.subrange(0, i + 1).drop_last() =~= procedures@.subrange(
                    0,
                    i as int,
                ));
            }
            i += 1;
        }
        proof {
            assert(procedures@.subrange(0, procedures.len() as int) =~= procedures@);
        }
    }

    /// Create a register holding `*unassigned*`. A name already in use is
    /// refused.
    pub fn allocate_register(&mut self, name: &str) -> (r: MResult<&'static str>)
        requires
            old(self).wf(),
        ensures
            final(self).wf(),
            old(self).view().registers.contains_key(name@) ==> {
                &&& r is Err
                &&& r->Err_0.model() == ErrorModel::AllocateFailure(name@)
                &&& final(self).view() == old(self).view()
            },
            !old(self).view().registers.contains_key(name@) ==> {
                &&& r is Ok
                &&& r->Ok_0@ == "register-allocated"@
                &&& final(self).view() == (MachineModel {
                    registers: old(self).view().registers.insert(name@, unassigned()),
                    ..old(self).view()
                })
            },
    {
        let key = name.to_string();
        let ghost old_entries = register_entries(self.register_table@);
        match find_last(&self.register_table, &key) {
            Some(i) => {
                proof {
                    assert(old_entries[i as int].0 == name@);
                    crate::table::lemma_to_map_distinct(old_entries, i as int);
                }
                Err(MachineError::RegisterError(RegisterError::AllocateFailure(key)))
            },
            None => {
                proof {
                    assert forall|j: int| 0 <= j < old_entries.len() implies #[trigger] old_entries[j].0
                        != name@ by {
                        assert(old_entries[j].0 == self.register_table[j].0@);
                    }
                    crate::table::lemma_to_map_absent(old_entries, name@);
                }
                let reg = Register::new();
                let ghost entry = (name@, reg.view());
                self.register_table.push((key, reg));
                proof {
                    assert(register_entries(self.register_table@) =~= old_entries.push(entry));
                    assert(register_entries(self.register_table@).drop_last() =~= old_entries);
                }
                Ok("register-allocated")
            },
        }
    }

    fn register_index(&self, name: &String) -> (r: Option<usize>)
        requires
            self.wf(),
        ensures
            match r {
                Some(i) => {
                    &&& i < self.register_table.len()
                    &&& self.register_table[i as int].0@ == name@
                    &&& self.view().registers.contains_key(name@)
                    &&& self.view().registers[name@] == self.register_table[i as int].1.view()
                },
                None => !self.view().registers.contains_key(name@),
            },
    {
        let ghost entries = register_entries(self.register_table@);
        match find_last(&self.register_table, name) {
            Some(i) => {
                proof {
                    crate::table::lemma_to_map_distinct(entries, i as int);
                }
                Some(i)
            },
            None => {
                proof {
                    assert forall|j: int| 0 <= j < entries.len() implies #[trigger] entries[j].0
                        != name@ by {
                        assert(entries[j].0 == self.register_table[j].0@);
                    }
                    crate::table::lemma_to_map_absent(entries, name@);
                }
                None
            },
        }
    }

    fn lookup_register(&self, name: &String) -> (r: MResult<Value>)
        requires
            self.wf(),
        ensures
            self.view().registers.contains_key(name@) ==> r is Ok && r->Ok_0.model()
                == self.view().registers[name@],
            !self.view().registers.contains_key(name@) ==> r is Err && r->Err_0.model()
                == ErrorModel::LookupFailure(name@),
    {
        match self.register_index(name) {
            Some(i) => Ok(self.register_table[i].1.get()),
            None => Err(MachineError::RegisterError(RegisterError::LookupFailure(name.clone()))),
        }
    }

    fn store_register(&mut self, name: &String, value: Value) -> (r: MResult<&'static str>)
        requires
            old(self).wf(),
        ensures
            final(self).wf(),
            old(self).view().registers.contains_key(name@) ==> {
                &&& r is Ok
                &&& r->Ok_0@ == "Done"@
                &&& final(self).view() == (MachineModel {
                    registers: old(self).view().registers.insert(name@, value.model()),
                    ..old(self).view()
                })
            },
            !old(self).view().registers.contains_key(name@) ==> {
                &&& r is Err
                &&& r->Err_0.model() == ErrorModel::LookupFailure(name@)
                &&& final(self).view() == old(self).view()
            },
    {
        match self.register_index(name) {
            Some(i) => {
                let ghost old_entries = register_entries(self.register_table@);
                let mut reg = Register::new();
                reg.set(value);
                let key = self.register_table[i].0.clone();
                let ghost entry = (key@, reg.view());
                self.register_table.set(i, (key, reg));
                proof {
                    assert(register_entries(self.register_table@) =~= old_entries.update(
                        i as int,
                        entry,
                    ));
                    assert forall|j: int|
                        i < j < old_entries.len() implies #[trigger] old_entries[j].0
                        != old_entries[i as int].0 by {}
                    crate::table::lemma_to_map_update(old_entries, i as int, entry.1);
                }
                Ok("Done")
            },
            None => Err(MachineError::RegisterError(RegisterError::LookupFailure(name.clone()))),
        }
    }

    /// The content of register `reg_name`.
    pub fn get_register_content(&self, reg_name: &str) -> (r: MResult<Value>)
        requires
            self.wf(),
        ensures
            self.view().registers.contains_key(reg_name@) ==> r is Ok && r->Ok_0.model()
                == self.view().registers[reg_name@],
            !self.view().registers.contains_key(reg_name@) ==> r is Err && r->Err_0.model()
                == ErrorModel::LookupFailure(reg_name@),
    {
        let key = reg_name.to_string();
        self.lookup_register(&key)
    }

    /// Store `value` in register `reg_name`.
    pub fn set_register_content(&mut self, reg_name: &str, value: Value) -> (r: MResult<&'static str>)
        requires
            old(self).wf(),
        ensures
            final(self).wf(),
            old(self).view().registers.contains_key(reg_name@) ==> {
                &&& r is Ok
                &&& r->Ok_0@ == "Done"@
                &&& final(self).view() == (MachineModel {
                    registers: old(self).view().registers.insert(reg_name@, value.model()),
                    ..old(self).view()
                })
            },
            !old(self).view().registers.contains_key(reg_name@) ==> {
                &&& r is Err
                &&& r->Err_0.model() == ErrorModel::LookupFailure(reg_name@)
                &&& final(self).view() == old(self).view()
            },
    {
        let key = reg_name.to_string();
        self.store_register(&key, value)
    }
}

pub proof fn lemma_arg_values_prefix(m: MachineModel, args: Seq<NodeModel>, i: int)
    requires
        0 <= i <= args.len(),
        arg_values(m, args.subrange(0, i)) is Err,
    ensures
        arg_values(m, args) == arg_values(m, args.subrange(0, i)),
    decreases args.len(),
{
    if i == args.len() {
        assert(args.subrange(0, i) =~= args);
    } else {
        assert(args.drop_last().subrange(0, i) =~= args.subrange(0, i));
        lemma_arg_values_prefix(m, args.drop_last(), i);
    }
}

impl Machine {
    /// The values of operation arguments, left to right.
    fn arg_values_of(&self, args: &Vec<RMLNode>) -> (r: MResult<Vec<Value>>)
        requires
            self.wf(),
        ensures
            match (r, arg_values(self.view(), RMLNode::models(args@))) {
                (Ok(vs), Ok(ms)) => Value::models(vs@) == ms,
                (Err(e), Err(x)) => e.model() == x,
                _ => false,
            },
    {
        let ghost m = self.view();
        let ghost ms = RMLNode::models(args@);
        let mut out: Vec<Value> = Vec::new();
        let mut i: usize = 0;
        proof {
            assert(ms.subrange(0, 0) =~= Seq::<NodeModel>::empty());
            assert(Value::models(out@) =~= Seq::<ValueModel>::empty());
        }
        while i < args.len()
            invariant
                i <= args.len(),
                self.wf(),
                m == self.view(),
                ms == RMLNode::models(args@),
                arg_values(m, ms.subrange(0, i as int)) == Ok::<Seq<ValueModel>, ErrorModel>(
                    Value::models(out@),
                ),
            decreases args.len() - i,
        {
            let ghost before = out@;
            proof {
                assert(ms.subrange(0, i + 1).drop_last() =~= ms.subrange(0, i as int));
                assert(ms.subrange(0, i + 1).last() == args[i as int].model());
            }
            match &args[i] {
                RMLNode::Reg(r) => {
                    match self.lookup_register(r) {
                        Ok(v) => {
                            out.push(v);
                        },
                        Err(e) => {
                            proof {
                                lemma_arg_values_prefix(m, ms, i + 1);
                            }
                            return Err(e);
                        },
                    }
                },
                RMLNode::Constant(c) => {
                    out.push(rmlvalue_to_value(c));
                },
                _ => {
                    proof {
                        lemma_arg_values_prefix(m, ms, i + 1);
                    }
                    return Err(MachineError::TypeError(TypeError::expected("operation argument")));
                },
            }
            proof {
                assert(Value::models(out@) =~= Value::models(before).push(out@.last().model()));
            }
            i += 1;
        }
        proof {
            assert(ms.subrange(0, args.len() as int) =~= ms);
        }
        Ok(out)
    }

    fn advance_pc(&mut self)
        requires
            old(self).view().pc < old(self).view().instructions.len(),
        ensures
            final(self).view() == advance(old(self).view()),
            *final(self) == (Machine { pc: (old(self).pc + 1) as usize, ..*old(self) }),
    {
        assert(self.view().instructions.len() == self.the_inst_seq.len());
        self.pc = self.pc + 1;
    }

    /// What a procedure's result does to the instruction at `pc`.
    fn apply_result_of(&mut self, v: Value) -> (r: MResult<Step>)
        requires
            old(self).wf(),
        ensures
            final(self).wf(),
            (final(self).view(), step_result(r)) == apply_result(old(self).view(), v.model()),
    {
        if self.pc >= self.the_inst_seq.len() {
            return Err(MachineError::NoMoreInsts);
        }
        let inst = self.the_inst_seq[self.pc].copy();
        match &inst {
            RMLNode::Assignment(r, _) => {
                match self.store_register(r, v) {
                    Ok(_) => {
                        self.advance_pc();
                        Ok(Step::Continue)
                    },
                    Err(e) => Err(e),
                }
            },
            RMLNode::PerformOp(_) => {
                self.advance_pc();
                Ok(Step::Continue)
            },
            RMLNode::TestOp(_) => {
                if let Value::Boolean(_) = v {
                    self.flag.set(v);
                    self.advance_pc();
                    Ok(Step::Continue)
                } else {
                    Err(MachineError::TypeError(TypeError::expected("bool")))
                }
            },
            _ => Err(MachineError::TypeError(TypeError::expected("operation"))),
        }
    }

    fn procedure_arity(&self, name: &String) -> (r: Option<usize>)
        requires
            self.wf(),
        ensures
            match r {
                Some(n) => self.view().procedures.contains_key(name@)
                    && self.view().procedures[name@] == n,
                None => !self.view().procedures.contains_key(name@),
            },
    {
        let ghost entries = procedure_entries(self.the_procedures@);
        let mut i = self.the_procedures.len();
        while i > 0
            invariant
                i <= self.the_procedures.len(),
                entries == procedure_entries(self.the_procedures@),
                forall|j: int| i <= j < entries.len() ==> #[trigger] entries[j].0 != name@,
            decreases i,
        {
            i -= 1;
            if self.the_procedures[i].name == *name {
                proof {
                    crate::table::lemma_to_map_last(entries, i as int);
                }
                return Some(self.the_procedures[i].min_arg_num);
            }
        }
        proof {
            crate::table::lemma_to_map_absent(entries, name@);
        }
        None
    }

    /// Apply an operation for the instruction at `pc`.
    fn invoke_op(&mut self, op: &RMLNode) -> (r: MResult<Step>)
        requires
            old(self).wf(),
        ensures
            final(self).wf(),
            (final(self).view(), step_result(r)) == invoke(old(self).view(), op.model()),
    {
        match op {
            RMLNode::Operation(name, args) => {
                proof {
                    RMLNode::lemma_operation_model(*name, *args);
                }
                let vs = match self.arg_values_of(args) {
                    Ok(vs) => vs,
                    Err(e) => {
                        return Err(e);
                    },
                };
                if is_word(name, "initialize-stack") {
                    self.stack.initialize();
                    proof {
                        assert(self.stack.view().items =~= Seq::<ValueModel>::empty());
                    }
                    let done = Value::Symbol("Done".to_string());
                    self.apply_result_of(done)
                } else if is_word(name, "print-stack-statistics") {
                    let pushes = self.stack.num_pushes();
                    let max_depth = self.stack.max_depth();
                    let done = Value::Symbol("Done".to_string());
                    match self.apply_result_of(done) {
                        Ok(_) => Ok(Step::PrintStatistics { pushes, max_depth }),
                        Err(e) => Err(e),
                    }
                } else {
                    match self.procedure_arity(name) {
                        None => Err(
                            MachineError::ProcedureError(ProcedureError::NotFound(name.clone())),
                        ),
                        Some(n) => {
                            if vs.len() < n {
                                Err(
                                    MachineError::ProcedureError(
                                        ProcedureError::ArgsTooFew {
                                            name: name.clone(),
                                            expected: n,
                                            got: vs.len(),
                                        },
                                    ),
                                )
                            } else {
                                Ok(Step::Call { name: name.clone(), args: vs })
                            }
                        },
                    }
                }
            },
            _ => Err(MachineError::TypeError(TypeError::expected("operation"))),
        }
    }

    /// The label named by the target of a `branch` or `goto`.
    fn label_name_of(&self, target: &RMLNode) -> (r: MResult<String>)
        requires
            self.wf(),
        ensures
            match (r, label_name(self.view(), target.model())) {
                (Ok(l), Ok(x)) => l@ == x,
                (Err(e), Err(x)) => e.model() == x,
                _ => false,
            },
    {
        match target {
            RMLNode::Label(l) => Ok(l.clone()),
            RMLNode::Reg(reg) => {
                match self.lookup_register(reg) {
                    Ok(Value::Symbol(l)) => Ok(l),
                    Ok(_) => Err(
                        MachineError::RegisterError(
                            RegisterError::UnmatchedContentType {
                                reg_name: reg.clone(),
                                expected_type: "Value::Symbol".to_string(),
                            },
                        ),
                    ),
                    Err(e) => Err(e),
                }
            },
            _ => Err(MachineError::TypeError(TypeError::expected("label"))),
        }
    }

    /// Where the instructions of label `l` start.
    fn label_start(&self, l: &String) -> (r: Option<usize>)
        ensures
            match r {
                Some(k) => self.view().labels.contains_key(l@) && self.view().labels[l@] == k,
                None => !self.view().labels.contains_key(l@),
            },
    {
        let ghost entries = label_view(self.the_labels@);
        match find_last(&self.the_labels, l) {
            Some(i) => {
                proof {
                    assert forall|j: int| i < j < entries.len() implies #[trigger] entries[j].0
                        != entries[i as int].0 by {
                        assert(entries[j].0 == self.the_labels[j].0@);
                    }
                    crate::table::lemma_to_map_last(entries, i as int);
                }
                Some(self.the_labels[i].1)
            },
            None => {
                proof {
                    assert forall|j: int| 0 <= j < entries.len() implies #[trigger] entries[j].0
                        != l@ by {
                        assert(entries[j].0 == self.the_labels[j].0@);
                    }
                    crate::table::lemma_to_map_absent(entries, l@);
                }
                None
            },
        }
    }

    fn assign_and_advance(&mut self, r: &String, v: Value) -> (res: MResult<Step>)
        requires
            old(self).wf(),
            old(self).view().pc < old(self).view().instructions.len(),
        ensures
            final(self).wf(),
            (final(self).view(), step_result(res)) == assign(old(self).view(), r@, v.model()),
    {
        match self.store_register(r, v) {
            Ok(_) => {
                self.advance_pc();
                Ok(Step::Continue)
            },
            Err(e) => Err(e),
        }
    }

    /// Execute the instruction at `pc`, or report that the program is done.
    pub fn execute(&mut self) -> (r: MResult<Step>)
        requires
            old(self).wf(),
        ensures
            final(self).wf(),
            (final(self).view(), step_result(r)) == run_step(old(self).view()),
    {
        let n = self.the_inst_seq.len();
        if self.pc == n {
            return Ok(Step::Done);
        }
        if self.pc > n {
            return Err(MachineError::NoMoreInsts);
        }
        let inst = self.the_inst_seq[self.pc].copy();
        let ghost m = old(self).view();
        assert(m.instructions[m.pc as int] == inst.model());
        assert(self.view() == m);
        match &inst {
            RMLNode::Assignment(r, src) => {
                assert(m.instructions[m.pc as int] == NodeModel::Assignment(
                    r@,
                    Box::new((**src).model()),
                ));
                match &**src {
                    RMLNode::Reg(x) => {
                        match self.lookup_register(x) {
                            Ok(v) => self.assign_and_advance(r, v),
                            Err(e) => Err(e),
                        }
                    },
                    RMLNode::Constant(c) => {
                        let v = rmlvalue_to_value(c);
                        self.assign_and_advance(r, v)
                    },
                    RMLNode::Label(l) => self.assign_and_advance(r, Value::Symbol(l.clone())),
                    RMLNode::Symbol(l) => self.assign_and_advance(r, Value::Symbol(l.clone())),
                    RMLNode::List(items) => {
                        let lit = RMLValue::List(copy_rml_values(items));
                        proof {
                            RMLValue::lemma_list_datum(lit->List_0);
                            RMLValue::lemma_list_datum(*items);
                        }
                        let v = rmlvalue_to_value(&lit);
                        self.assign_and_advance(r, v)
                    },
                    RMLNode::Operation(_, _) => self.invoke_op(&**src),
                    _ => Err(MachineError::TypeError(TypeError::expected("assignment source"))),
                }
            },
            RMLNode::Branch(target) => {
                let l = match self.label_name_of(&**target) {
                    Ok(l) => l,
                    Err(e) => {
                        return Err(e);
                    },
                };
                match self.label_start(&l) {
                    None => Err(MachineError::UnknownLabel(l)),
                    Some(k) => {
                        match self.flag.get() {
                            Value::Boolean(true) => {
                                self.pc = k;
                                                Ok(Step::Continue)
                            },
                            Value::Boolean(false) => {
                                self.advance_pc();
                                Ok(Step::Continue)
                            },
                            _ => Err(MachineError::TypeError(TypeError::expected("bool"))),
                        }
                    },
                }
            },
            RMLNode::GotoLabel(target) => {
                let l = match self.label_name_of(&**target) {
                    Ok(l) => l,
                    Err(e) => {
                        return Err(e);
                    },
                };
                match self.label_start(&l) {
                    None => Err(MachineError::UnknownLabel(l)),
                    Some(k) => {
                        self.pc = k;
                                Ok(Step::Continue)
                    },
                }
            },
            RMLNode::PerformOp(op) => self.invoke_op(&**op),
            RMLNode::TestOp(op) => self.invoke_op(&**op),
            RMLNode::Save(r) => {
                let v = match self.lookup_register(r) {
                    Ok(v) => v,
                    Err(e) => {
                        return Err(e);
                    },
                };
                if self.stack.num_pushes() == u64::MAX {
                    return Err(
                        MachineError::StackError("Push counter exhausted: PUSH".to_string()),
                    );
                }
                self.stack.push(v);
                self.advance_pc();
                Ok(Step::Continue)
            },
            RMLNode::Restore(r) => {
                if self.stack.is_empty() {
                    return Err(MachineError::StackError("Empty stack: POP".to_string()));
                }
                match self.stack.pop() {
                    Ok(v) => {
                        let res = self.assign_and_advance(r, v);
                                res
                    },
                    Err(_) => Err(MachineError::StackError("Empty stack: POP".to_string())),
                }
            },
            _ => Err(MachineError::TypeError(TypeError::expected("instruction"))),
        }
    }

    /// Hand back the result of the procedure that `Step::Call` asked for, and
    /// finish the instruction at `pc` with it.
    pub fn resume(&mut self, result: Value) -> (r: MResult<Step>)
        requires
            old(self).wf(),
        ensures
            final(self).wf(),
            (final(self).view(), step_result(r)) == apply_result(old(self).view(), result.model()),
    {
        self.apply_result_of(result)
    }

    /// Run from the first instruction: reset `pc` and execute one step.
    pub fn start(&mut self) -> (r: MResult<Step>)
        requires
            old(self).wf(),
        ensures
            final(self).wf(),
            (final(self).view(), step_result(r)) == run_step(
                MachineModel { pc: 0, ..old(self).view() },
            ),
    {
        self.pc = 0;
        self.execute()
    }

    /// Replace the instruction sequence.
    pub fn install_instructions(&mut self, insts: Vec<RMLNode>)
        requires
            old(self).wf(),
        ensures
            final(self).wf(),
            final(self).view() == (MachineModel {
                instructions: RMLNode::models(insts@),
                ..old(self).view()
            }),
    {
        self.the_inst_seq = insts;
    }

    /// Replace the label table: each label with the index of its first
    /// instruction.
    pub fn install_labels(&mut self, labels: Vec<(String, usize)>)
        requires
            old(self).wf(),
        ensures
            final(self).wf(),
            final(self).view() == (MachineModel {
                labels: to_map(label_view(labels@)),
                ..old(self).view()
            }),
    {
        self.the_labels = labels;
    }

    pub fn stack(&self) -> (r: &Stack)
        ensures
            r.view() == self.view().stack,
            self.wf() ==> r.wf(),
    {
        &self.stack
    }

    pub fn procedures(&self) -> (r: &Vec<Procedure>)
        ensures
            to_map(procedure_entries(r@)) == self.view().procedures,
    {
        &self.the_procedures
    }

    /// The index of the next instruction.
    pub fn pc(&self) -> (r: usize)
        ensures
            r == self.view().pc,
    {
        self.pc
    }

    /// The content of the `flag` register.
    pub fn flag(&self) -> (r: Value)
        ensures
            r.model() == self.view().flag,
    {
        self.flag.get()
    }

    /// How many registers there are: those allocated, and `pc` and `flag`
    /// (at most `usize::MAX`).
    pub fn total_registers(&self) -> (r: usize)
        requires
            self.wf(),
        ensures
            r == if self.view().registers.len() + 2 <= usize::MAX {
                self.view().registers.len() + 2
            } else {
                usize::MAX as nat
            },
    {
        proof {
            crate::table::lemma_to_map_len(register_entries(self.register_table@));
        }
        let n = self.register_table.len();
        if n <= usize::MAX - 2 {
            n + 2
        } else {
            usize::MAX
        }
    }

    /// How many procedures there are: those installed, and the two stack
    /// procedures (at most `usize::MAX`).
    pub fn total_procedures(&self) -> (r: usize)
        requires
            self.wf(),
        ensures
            r == if self.view().procedures.len() + 2 <= usize::MAX {
                self.view().procedures.len() + 2
            } else {
                usize::MAX as nat
            },
    {
        proof {
            crate::table::lemma_to_map_len(procedure_entries(self.the_procedures@));
        }
        let n = self.the_procedures.len();
        if n <= usize::MAX - 2 {
            n + 2
        } else {
            usize::MAX
        }
    }
}

} // verus!
