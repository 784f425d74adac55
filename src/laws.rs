//! Properties of the machine's step semantics, proved once for every machine.

use vstd::prelude::*;
use crate::errors::ErrorModel;
use crate::machine::{
    apply_result, arg_value, arg_values, label_name, run_step, Machine, MachineModel, StepModel,
};
use crate::syntax::NodeModel;
use crate::value::ValueModel;

verus! {

/// A well-formed machine's stack counts every push as popped or still held,
/// so when a run ends, pushes equal pops exactly when the stack is empty.
pub proof fn lemma_pushes_balance_pops(machine: &Machine)
    requires
        machine.wf(),
    ensures
        machine.view().stack.pushes == machine.view().stack.pops + machine.view().stack.items.len(),
        run_step(machine.view()).1 == Ok::<StepModel, ErrorModel>(StepModel::Done) ==> (
        machine.view().stack.pushes == machine.view().stack.pops <==> machine.view().stack.items.len()
            == 0),
{
    machine.lemma_stack_balance();
}

/// Running off the end of the program is `Done`, whatever the stack holds;
/// nothing changes.
pub proof fn lemma_done_at_end(m: MachineModel)
    requires
        m.pc == m.instructions.len(),
    ensures
        run_step(m) == (m, Ok::<StepModel, ErrorModel>(StepModel::Done)),
{
}

/// `restore` on an empty stack fails with a stack error and changes nothing.
pub proof fn lemma_restore_on_empty_stack(m: MachineModel, r: Seq<char>)
    requires
        m.pc < m.instructions.len(),
        m.instructions[m.pc as int] == NodeModel::Restore(r),
        m.stack.items.len() == 0,
    ensures
        run_step(m).0 == m,
        run_step(m).1 is Err,
        run_step(m).1->Err_0 is StackError,
{
}

/// `branch` to a label that exists, with a `flag` that is no boolean, fails
/// with a type error and changes nothing.
pub proof fn lemma_branch_needs_boolean_flag(m: MachineModel, target: NodeModel, l: Seq<char>)
    requires
        m.pc < m.instructions.len(),
        m.instructions[m.pc as int] == NodeModel::Branch(Box::new(target)),
        label_name(m, target) == Ok::<Seq<char>, ErrorModel>(l),
        m.labels.contains_key(l),
        !(m.flag is Boolean),
    ensures
        run_step(m) == (m, Err::<StepModel, ErrorModel>(ErrorModel::TypeError("bool"@, None))),
{
}

/// A `test` whose procedure returns anything but a boolean fails with a type
/// error and changes nothing.
pub proof fn lemma_test_needs_boolean(m: MachineModel, op: NodeModel, v: ValueModel)
    requires
        m.pc < m.instructions.len(),
        m.instructions[m.pc as int] == NodeModel::TestOp(Box::new(op)),
        !(v is Boolean),
    ensures
        apply_result(m, v) == (m, Err::<StepModel, ErrorModel>(ErrorModel::TypeError("bool"@, None))),
{
}

/// A `branch` or `goto` to a label the program does not declare fails with
/// `UnknownLabel` and changes nothing.
pub proof fn lemma_label_must_resolve(m: MachineModel, target: NodeModel, l: Seq<char>)
    requires
        m.pc < m.instructions.len(),
        m.instructions[m.pc as int] == NodeModel::Branch(Box::new(target))
            || m.instructions[m.pc as int] == NodeModel::GotoLabel(Box::new(target)),
        label_name(m, target) == Ok::<Seq<char>, ErrorModel>(l),
        !m.labels.contains_key(l),
    ensures
        run_step(m) == (m, Err::<StepModel, ErrorModel>(ErrorModel::UnknownLabel(l))),
{
}

/// A label stored in a register by an assignment and then used by
/// `goto (reg ...)` must resolve too: the assignment succeeds, the `goto`
/// fails with `UnknownLabel`.
pub proof fn lemma_stored_label_must_resolve(m: MachineModel, k: Seq<char>, l: Seq<char>)
    requires
        m.pc + 1 < m.instructions.len(),
        m.instructions[m.pc as int] == NodeModel::Assignment(k, Box::new(NodeModel::Label(l))),
        m.instructions[m.pc + 1int] == NodeModel::GotoLabel(Box::new(NodeModel::Reg(k))),
        m.registers.contains_key(k),
        !m.labels.contains_key(l),
    ensures
        run_step(m).1 == Ok::<StepModel, ErrorModel>(StepModel::Continue),
        run_step(run_step(m).0) == (
            run_step(m).0,
            Err::<StepModel, ErrorModel>(ErrorModel::UnknownLabel(l)),
        ),
{
    let m1 = run_step(m).0;
    assert(m1.registers[k] == ValueModel::Symbol(l));
    assert(label_name(m1, NodeModel::Reg(k)) == Ok::<Seq<char>, ErrorModel>(l));
}

/// Successful argument values are the arguments' values one by one.
pub proof fn lemma_arg_values_each(m: MachineModel, args: Seq<NodeModel>)
    requires
        arg_values(m, args) is Ok,
    ensures
        arg_values(m, args)->Ok_0.len() == args.len(),
        forall|i: int|
            0 <= i < args.len() ==> arg_value(m, #[trigger] args[i]) == Ok::<ValueModel, ErrorModel>(
                arg_values(m, args)->Ok_0[i],
            ),
    decreases args.len(),
{
    if args.len() > 0 {
        lemma_arg_values_each(m, args.drop_last());
        assert forall|i: int| 0 <= i < args.len() implies arg_value(m, #[trigger] args[i])
            == Ok::<ValueModel, ErrorModel>(arg_values(m, args)->Ok_0[i]) by {
            if i < args.len() - 1 {
                assert(args[i] == args.drop_last()[i]);
            }
        }
    }
}

/// An operation handed out to its procedure carries each register argument's
/// content at the moment the instruction runs.
pub proof fn lemma_register_args_read_current(
    m: MachineModel,
    name: Seq<char>,
    args: Seq<NodeModel>,
)
    requires
        m.pc < m.instructions.len(),
        m.instructions[m.pc as int] == NodeModel::PerformOp(
            Box::new(NodeModel::Operation(name, args)),
        ),
        run_step(m).1 is Ok,
        run_step(m).1->Ok_0 is Call,
    ensures
        ({
            let vs = run_step(m).1->Ok_0->Call_1;
            &&& vs.len() == args.len()
            &&& forall|i: int|
                0 <= i < args.len() && #[trigger] args[i] is Reg ==> m.registers.contains_key(
                    args[i]->Reg_0,
                ) && vs[i] == m.registers[args[i]->Reg_0]
        }),
{
    lemma_arg_values_each(m, args);
}

} // verus!
