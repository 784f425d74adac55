use reg_machine::errors::MachineError;
use reg_machine::machine::{Machine, Step};
use reg_machine::make_machine;
use reg_machine::parser::rml_value;
use reg_machine::rmlvalue_to_value;
use reg_machine::value::{Number, Procedure, Value};

fn to_f64(v: &Value) -> f64 {
    match v {
        Value::Num(n) => n.mantissa as f64 / 10f64.powi(n.scale as i32),
        other => panic!("not a number: {:?}", other),
    }
}

fn from_f64(x: f64) -> Value {
    if x.fract() == 0.0 && x.abs() < 9.0e18 {
        Value::Num(Number::from_int(x as i64))
    } else {
        Value::Num(Number::new((x * 1.0e12).round() as i64, 12))
    }
}

/// Drives the machine until it is done, applying `prims` to each call.
fn run<F: FnMut(&str, &[Value]) -> Value>(m: &mut Machine, mut prims: F) -> Result<&'static str, MachineError> {
    let mut step = m.start();
    loop {
        match step? {
            Step::Done => return Ok("Done"),
            Step::Continue | Step::PrintStatistics { .. } => step = m.execute(),
            Step::Call { name, args } => {
                let v = prims(&name, &args);
                step = m.resume(v);
            }
        }
    }
}

fn arithmetic(name: &str, args: &[Value]) -> Value {
    let a = to_f64(&args[0]);
    let b = to_f64(&args[1]);
    match name {
        "=" => Value::Boolean(a == b),
        ">" => Value::Boolean(a > b),
        "<" => Value::Boolean(a < b),
        "+" => from_f64(a + b),
        "-" => from_f64(a - b),
        "*" => from_f64(a * b),
        "rem" => from_f64(a % b),
        other => panic!("unknown procedure {}", other),
    }
}

fn procs(names: &[&str]) -> Vec<Procedure> {
    names.iter().map(|n| Procedure::new(n, 2)).collect()
}

#[test]
fn gcd_program() {
    let text = "(controller
 test-b
   (test (op =) (reg b) (const 0))
   (branch (label gcd-done))
   (assign t (op rem) (reg a) (reg b))
   (assign a (reg b))
   (assign b (reg t))
   (goto (label test-b))
 gcd-done)";
    let mut m = make_machine(vec!["a", "b", "t"], &procs(&["=", "rem"]), text).unwrap();
    m.set_register_content("a", from_f64(1023.0)).unwrap();
    m.set_register_content("b", from_f64(27.0)).unwrap();
    assert_eq!(Ok("Done"), run(&mut m, arithmetic));
    assert_eq!(Ok(from_f64(3.0)), m.get_register_content("a"));
}

#[test]
fn iterative_factorial_program() {
    let text = "(controller
   (assign p (const 1))
   (assign c (const 1))
 test-c
   (test (op >) (reg c) (reg n))
   (branch (label factorial-done))
   (assign p (op *) (reg p) (reg c))
   (assign c (op +) (reg c) (const 1))
   (goto (label test-c))
 factorial-done)";
    let mut m = make_machine(vec!["c", "n", "p"], &procs(&[">", "*", "+"]), text).unwrap();
    m.set_register_content("n", from_f64(16.0)).unwrap();
    assert_eq!(Ok("Done"), run(&mut m, arithmetic));
    assert_eq!(
        Ok(Value::Num(Number::from_int(20_922_789_888_000))),
        m.get_register_content("p")
    );
}

#[test]
fn recursive_factorial_program() {
    let text = r#"(controller
   (perform (op print) (const "Please enter a number to compute the factorial:"))
   (assign n (op read))
   (assign continue (label fact-done))
 fact-loop
   (test (op =) (reg n) (const 1))
   (branch (label base-case))
   (save continue)
   (save n)
   (assign n (op -) (reg n) (const 1))
   (assign continue (label after-fact))
   (goto (label fact-loop))
 after-fact
   (restore n)
   (restore continue)
   (assign val (op *) (reg n) (reg val))
   (goto (reg continue))
 base-case
   (assign val (const 1))
   (goto (reg continue))
 fact-done
   (perform (op print) (reg val))
 done)"#;
    let mut m = make_machine(vec!["continue", "n", "val"], &procs(&["=", "-", "*"]), text).unwrap();
    let mut printed: Vec<String> = vec![];
    let result = run(&mut m, |name, args| match name {
        "read" => rmlvalue_to_value(&rml_value("5").unwrap()),
        "print" => {
            printed.push(args[0].to_text());
            Value::Nil
        }
        _ => arithmetic(name, args),
    });
    assert_eq!(Ok("Done"), result);
    assert_eq!(Ok(from_f64(120.0)), m.get_register_content("val"));
    assert_eq!(printed.last().map(|s| s.as_str()), Some("120"));
    assert_eq!(m.stack().num_pushes(), 8);
    assert_eq!(m.stack().max_depth(), 8);
    assert_eq!(m.stack().num_pops(), 8);
}

#[test]
fn iterative_exponent_program() {
    let text = "(controller
   (assign p (const 1))
 expt-iter
   (test (op =) (reg n) (const 0))
   (branch (label expt-done))
   (assign n (op -) (reg n) (const 1))
   (assign p (op *) (reg b) (reg p))
   (goto (label expt-iter))
 expt-done)";
    let mut m = make_machine(vec!["b", "n", "p"], &procs(&["=", "-", "*"]), text).unwrap();
    m.set_register_content("b", from_f64(2.0)).unwrap();
    m.set_register_content("n", from_f64(10.0)).unwrap();
    assert_eq!(Ok("Done"), run(&mut m, arithmetic));
    assert_eq!(Ok(from_f64(1024.0)), m.get_register_content("p"));
}

#[test]
fn newton_sqrt_program() {
    let text = "(controller
   (assign g (const 1.0))
 test-g
   (test (op good-enough?) (reg g) (reg x))
   (branch (label sqrt-done))
   (assign t (op improve) (reg g) (reg x))
   (assign g (reg t))
   (goto (label test-g))
 sqrt-done)";
    let mut m = make_machine(vec!["g", "t", "x"], &procs(&["good-enough?", "improve"]), text).unwrap();
    m.set_register_content("x", rmlvalue_to_value(&rml_value("2.0").unwrap())).unwrap();
    let result = run(&mut m, |name, args| {
        let guess = to_f64(&args[0]);
        let x = to_f64(&args[1]);
        match name {
            "good-enough?" => Value::Boolean((guess * guess - x).abs() < 0.001),
            "improve" => from_f64((guess + x / guess) / 2.0),
            other => panic!("unknown procedure {}", other),
        }
    });
    assert_eq!(Ok("Done"), result);
    let g = to_f64(&m.get_register_content("g").unwrap());
    assert!((g - 2f64.sqrt()).abs() < 0.001);
}

#[test]
fn parse_assemble_goto_program() {
    let text = "(controller A (goto (label B)) B (perform (op done)))";
    let (insts, labels) = reg_machine::assemble::assemble(text).unwrap();
    let start_of = |name: &str| labels.iter().find(|(n, _)| n == name).map(|(_, k)| *k).unwrap();
    assert_eq!(insts[start_of("A")..].len(), insts.len());
    assert_eq!(insts.len(), 2);
    assert_eq!(insts[start_of("B")..].len(), 1);
    assert_eq!(insts[start_of("B")].to_text(), "(perform (op done))");

    let mut m = make_machine(vec![], &vec![Procedure::new("done", 0)], text).unwrap();
    let mut external: Vec<i32> = vec![];
    let result = run(&mut m, |name, _| {
        assert_eq!(name, "done");
        external.push(1);
        Value::Nil
    });
    assert_eq!(Ok("Done"), result);
    assert_eq!(external, vec![1]);
}
