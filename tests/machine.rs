use reg_machine::errors::{MachineError, ProcedureError, RegisterError, TypeError};
use reg_machine::machine::{Machine, Step};
use reg_machine::make_machine;
use reg_machine::register::Register;
use reg_machine::stack::Stack;
use reg_machine::value::{Number, Procedure, Value};

fn num(n: i64) -> Value {
    Value::Num(Number::from_int(n))
}

fn sym(s: &str) -> Value {
    Value::Symbol(s.to_string())
}

/// Executes steps until the machine stops or asks for a procedure.
fn run_until_call(m: &mut Machine) -> Result<Step, MachineError> {
    loop {
        match m.execute()? {
            Step::Continue | Step::PrintStatistics { .. } => {}
            other => return Ok(other),
        }
    }
}

#[test]
fn test_make_new_machine() {
    let m = Machine::new();
    assert!(m.stack().is_empty());
    assert_eq!(m.total_registers(), 2);
    assert_eq!(m.total_procedures(), 2);
}

#[test]
fn test_allocate_register() {
    let mut m = Machine::new();
    let res = m.allocate_register("test");
    assert_eq!(res, Ok("register-allocated"));
    assert_eq!(
        Err(MachineError::RegisterError(RegisterError::AllocateFailure("test".to_string()))),
        m.allocate_register("test")
    );
}

#[test]
fn test_builtin_procedures() {
    let text = "(controller
       (assign x (op print-stack-statistics))
       (assign y (op initialize-stack)))";
    let mut m = make_machine(vec!["x", "y"], &vec![], text).unwrap();
    assert!(matches!(m.start(), Ok(Step::PrintStatistics { pushes: 0, max_depth: 0 })));
    assert_eq!(Ok(sym("Done")), m.get_register_content("x"));
    assert!(matches!(m.execute(), Ok(Step::Continue)));
    assert_eq!(Ok(sym("Done")), m.get_register_content("y"));
    assert!(matches!(m.execute(), Ok(Step::Done)));
}

#[test]
fn test_install_procedure() {
    let mut m = Machine::new();
    m.install_procedure(Procedure::new("add", 2));
    assert_eq!(m.total_procedures(), 3);
    m.install_procedure(Procedure::new("add", 3));
    assert_eq!(m.total_procedures(), 3);
    assert_eq!(m.procedures()[0].get_arg_num(), 3);
}

#[test]
fn test_install_procedures() {
    let procedures = vec![
        Procedure::new("add", 2),
        Procedure::new("sub", 2),
        Procedure::new("mul", 2),
        Procedure::new("div", 2),
    ];
    let mut m = Machine::new();
    m.install_procedures(&procedures);
    assert_eq!(m.total_procedures(), 6);
    let names: Vec<String> = m.procedures().iter().map(|p| p.get_name()).collect();
    assert_eq!(names, vec!["add", "sub", "mul", "div"]);
}

#[test]
fn test_start_method() {
    let mut m = Machine::new();
    assert!(matches!(m.start(), Ok(Step::Done)));
}

#[test]
fn test_advance_pc() {
    let mut m = make_machine(vec!["a"], &vec![], "(controller (assign a (const 1)))").unwrap();
    assert_eq!(m.pc(), 0);
    assert!(matches!(m.start(), Ok(Step::Continue)));
    assert_eq!(m.pc(), 1);
}

#[test]
fn test_manipulate_register_content() {
    let mut m = Machine::new();
    assert_eq!(Ok("register-allocated"), m.allocate_register("test"));
    assert_eq!(Ok(sym("*unassigned*")), m.get_register_content("test"));
    assert_eq!(Ok("Done"), m.set_register_content("test", num(1)));
    assert_eq!(Ok(num(1)), m.get_register_content("test"));
    assert_eq!(
        Err(MachineError::RegisterError(RegisterError::LookupFailure("other".to_string()))),
        m.get_register_content("other")
    );
}

#[test]
fn test_get_register_contents() {
    let reg = Register::new();
    assert_eq!(sym("*unassigned*"), reg.get());
}

#[test]
fn test_set_register_contents() {
    let mut reg = Register::new();
    reg.set(num(12345678));
    assert_eq!(num(12345678), reg.get());
}

#[test]
fn test_push_item() {
    let mut stack = Stack::new();
    stack.push(num(42));
    assert_eq!(stack.num_pushes(), 1);
    assert_eq!(stack.curr_depth(), 1);
    assert_eq!(stack.max_depth(), 1);
}

#[test]
fn test_pop_item() {
    let mut stack = Stack::new();
    let right = num(42);
    stack.push(right.clone());
    assert_eq!(stack.num_pushes(), 1);
    assert_eq!(stack.curr_depth(), 1);
    assert_eq!(stack.max_depth(), 1);
    let popped = stack.pop().unwrap();
    assert_eq!(popped, right);
    assert_eq!(stack.num_pushes(), 1);
    assert_eq!(stack.curr_depth(), 0);
    assert_eq!(stack.max_depth(), 1);
}

#[test]
fn test_initialize() {
    let mut stack = Stack::new();
    stack.push(Value::String("Hello!".to_string()));
    stack.push(num(42));
    assert!(stack.pop().is_ok());
    stack.initialize();
    assert!(stack.is_empty());
    assert_eq!(stack.num_pushes(), 0);
    assert_eq!(stack.curr_depth(), 0);
    assert_eq!(stack.max_depth(), 0);
}

#[test]
fn test_is_empty() {
    let mut stack = Stack::new();
    assert!(stack.is_empty());
    stack.push(Value::String("Hello!".to_string()));
    stack.push(num(42));
    assert!(!stack.is_empty());
    stack.pop().ok();
    assert!(!stack.is_empty());
    stack.initialize();
    assert!(stack.is_empty());
}

#[test]
fn pop_on_empty_stack_fails() {
    let mut stack = Stack::new();
    assert_eq!(Err("Empty stack: POP"), stack.pop());
    assert_eq!(stack.num_pops(), 0);
}

#[test]
fn test_procedure_constructor() {
    let proc = Procedure::new("test", 0);
    assert_eq!(proc.get_name(), "test");
    assert_eq!(proc.get_arg_num(), 0);
    let copy = Procedure::duplicate(&proc, "other");
    assert_eq!(copy.get_name(), "other");
    assert_eq!(copy.get_arg_num(), 0);
    assert!(proc != copy);
    assert!(proc == Procedure::new("test", 0));
}

#[test]
fn restore_on_empty_stack_is_a_stack_error() {
    let mut m = make_machine(vec!["a"], &vec![], "(controller (restore a))").unwrap();
    assert_eq!(Err(MachineError::StackError("Empty stack: POP".to_string())), m.start());
}

#[test]
fn branch_on_non_boolean_flag_is_a_type_error() {
    let mut m = make_machine(vec![], &vec![], "(controller here (branch (label here)))").unwrap();
    assert_eq!(Err(MachineError::TypeError(TypeError::expected("bool"))), m.start());
}

#[test]
fn test_with_non_boolean_result_is_a_type_error() {
    let mut m = make_machine(vec![], &vec![Procedure::new("f", 0)], "(controller (test (op f)))").unwrap();
    assert!(matches!(m.start(), Ok(Step::Call { .. })));
    assert_eq!(Err(MachineError::TypeError(TypeError::expected("bool"))), m.resume(num(1)));
    assert!(matches!(m.resume(Value::Boolean(true)), Ok(Step::Continue)));
    assert_eq!(Value::Boolean(true), m.flag());
}

#[test]
fn unknown_labels_are_reported() {
    let mut m = make_machine(vec![], &vec![], "(controller (goto (label nowhere)))").unwrap();
    assert_eq!(Err(MachineError::UnknownLabel("nowhere".to_string())), m.start());
    let mut m = make_machine(
        vec!["k"],
        &vec![],
        "(controller (assign k (label nowhere)) (goto (reg k)))",
    )
    .unwrap();
    assert!(matches!(m.start(), Ok(Step::Continue)));
    assert_eq!(Ok(sym("nowhere")), m.get_register_content("k"));
    assert_eq!(Err(MachineError::UnknownLabel("nowhere".to_string())), m.execute());
    let mut m = make_machine(vec![], &vec![], "(controller (branch (label nowhere)))").unwrap();
    assert_eq!(Err(MachineError::UnknownLabel("nowhere".to_string())), m.start());
}

#[test]
fn goto_through_a_register_needs_a_symbol() {
    let mut m = make_machine(vec!["k"], &vec![], "(controller (assign k (const 1)) (goto (reg k)))").unwrap();
    assert!(matches!(m.start(), Ok(Step::Continue)));
    assert_eq!(
        Err(MachineError::RegisterError(RegisterError::UnmatchedContentType {
            reg_name: "k".to_string(),
            expected_type: "Value::Symbol".to_string(),
        })),
        m.execute()
    );
}

#[test]
fn register_arguments_are_read_at_each_call() {
    let text = "(controller
       (assign a (const 1))
       (perform (op show) (reg a) (const 7))
       (assign a (const 2))
       (perform (op show) (reg a)))";
    let mut m = make_machine(vec!["a"], &vec![Procedure::new("show", 1)], text).unwrap();
    m.start().unwrap();
    match run_until_call(&mut m).unwrap() {
        Step::Call { name, args } => {
            assert_eq!(name, "show");
            assert_eq!(args, vec![num(1), num(7)]);
        }
        other => panic!("unexpected {:?}", other),
    }
    m.resume(Value::Nil).unwrap();
    match run_until_call(&mut m).unwrap() {
        Step::Call { args, .. } => assert_eq!(args, vec![num(2)]),
        other => panic!("unexpected {:?}", other),
    }
    m.resume(Value::Nil).unwrap();
    assert!(matches!(m.execute(), Ok(Step::Done)));
}

#[test]
fn procedure_errors() {
    let mut m = make_machine(vec![], &vec![Procedure::new("two", 2)], "(controller (perform (op two) (const 1)))").unwrap();
    assert_eq!(
        Err(MachineError::ProcedureError(ProcedureError::ArgsTooFew {
            name: "two".to_string(),
            expected: 2,
            got: 1,
        })),
        m.start()
    );
    let mut m = make_machine(vec![], &vec![], "(controller (perform (op missing)))").unwrap();
    assert_eq!(
        Err(MachineError::ProcedureError(ProcedureError::NotFound("missing".to_string()))),
        m.start()
    );
}

#[test]
fn saves_and_restores_balance() {
    let text = "(controller (save a) (save a) (restore a) (save a) (restore a) (restore a))";
    let mut m = make_machine(vec!["a"], &vec![], text).unwrap();
    let mut step = m.start();
    while let Ok(Step::Continue) = step {
        step = m.execute();
    }
    assert!(matches!(step, Ok(Step::Done)));
    assert_eq!(m.stack().num_pushes(), 3);
    assert_eq!(m.stack().num_pops(), 3);
    assert_eq!(m.stack().max_depth(), 2);

    let mut m = make_machine(vec!["a"], &vec![], "(controller (save a))").unwrap();
    assert!(matches!(m.start(), Ok(Step::Continue)));
    assert!(matches!(m.execute(), Ok(Step::Done)));
    assert_eq!(m.stack().num_pushes(), 1);
    assert_eq!(m.stack().num_pops(), 0);
    assert_eq!(m.stack().curr_depth(), 1);
}

#[test]
fn builder_errors() {
    assert!(matches!(
        make_machine(vec![], &vec![], "(controller a a)"),
        Err(MachineError::UnableAssemble(_))
    ));
    assert!(matches!(
        make_machine(vec![], &vec![], "(controller"),
        Err(MachineError::UnableAssemble(_))
    ));
    assert!(matches!(
        make_machine(vec!["a", "b", "a"], &vec![], "(controller)"),
        Err(MachineError::RegisterError(RegisterError::AllocateFailure(n))) if n == "a"
    ));
}

#[test]
fn builder_provides_read_and_print() {
    let m = make_machine(vec![], &vec![Procedure::new("read", 3)], "(controller)").unwrap();
    assert_eq!(m.total_procedures(), 4);
    let read = m.procedures().iter().find(|p| p.get_name() == "read").unwrap();
    assert_eq!(read.get_arg_num(), 0);
    let print = m.procedures().iter().find(|p| p.get_name() == "print").unwrap();
    assert_eq!(print.get_arg_num(), 1);
}
