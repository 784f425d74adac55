use std::sync::Arc;

use reg_machine::assemble::{assemble, assemble_nodes};
use reg_machine::parser::{parse, rml_instruction, rml_value, RMLNode, RMLValue};
use reg_machine::render::render_program;
use reg_machine::rmlvalue_to_value;
use reg_machine::syntax::RMLParseError;
use reg_machine::value::{Number, Value};

fn symbol(s: &str) -> RMLValue {
    RMLValue::Symbol(s.into())
}

#[test]
fn test_rml_symbol() {
    for s in ["_1234", "abcd", "abcd?", "abcd!", "abcd-1234", "abcd_1234", "abcd_1234-"] {
        assert_eq!(Ok(symbol(s)), rml_value(s));
    }
    assert_eq!(Ok(RMLValue::Num(1234)), rml_value("1234"));
    assert_eq!(Ok(RMLValue::Num(-1234)), rml_value("-1234"));
}

#[test]
fn test_rml_string() {
    assert_eq!(Ok(RMLValue::Str("".into())), rml_value(r#""""#));
    assert_eq!(Ok(RMLValue::Str("Hello".into())), rml_value(r#""Hello""#));
    assert_eq!(Ok(RMLValue::Str("Hello, world!".into())), rml_value(r#""Hello, world!""#));
    assert_eq!(Ok(RMLValue::Str("1+1=2".into())), rml_value(r#""1+1=2""#));
    assert_eq!(Ok(RMLValue::Str("1 + 1 = 2".into())), rml_value(r#""1 + 1 = 2""#));
    assert_eq!(Ok(RMLValue::Str(" ".into())), rml_value(r#"" ""#));
    assert!(rml_value(r#""a\b""#).is_err());
}

#[test]
fn test_rml_number() {
    assert_eq!(Ok(RMLValue::Num(42)), rml_value("42"));
    assert_eq!(Ok(RMLValue::Num(-42)), rml_value("-42"));
    assert_eq!(Ok(symbol("42_")), rml_value("42_"));
    assert_eq!(Ok(symbol("_42")), rml_value("_42"));
    assert_eq!(Ok(RMLValue::Num(i32::MIN)), rml_value("-2147483648"));
    assert_eq!(Err(RMLParseError::BadNum), rml_value("2147483648"));
}

#[test]
fn test_rml_float() {
    assert_eq!(Ok(RMLValue::Float(Number::new(42, 0))), rml_value("42.0"));
    assert_eq!(Ok(RMLValue::Float(Number::new(-42, 0))), rml_value("-42.0"));
    assert_eq!(Ok(RMLValue::Float(Number::new(125, 2))), rml_value("1.250"));
    assert_eq!(Ok(RMLValue::Float(Number { mantissa: -5, scale: 2 })), rml_value("-0.05"));
    assert_eq!(Ok(symbol("42.0_")), rml_value("42.0_"));
    assert_eq!(Err(RMLParseError::BadFloatPoint), rml_value("99999999999999999999.5"));
}

#[test]
fn test_rml_list() {
    let abc = RMLValue::List(vec![symbol("a"), symbol("b"), symbol("c")]);
    assert_eq!(Ok(abc.clone()), rml_value("(a b c)"));
    assert_eq!(Ok(abc), rml_value("( a  b    c     )"));
    assert_eq!(Ok(RMLValue::List(vec![])), rml_value("()"));
    assert_eq!(
        Ok(RMLValue::List(vec![symbol("a"), RMLValue::Num(0), RMLValue::Float(Number::new(1, 0))])),
        rml_value("(a 0 1.0)")
    );
    assert_eq!(Err(RMLParseError::ParseFailure { position: 4 }), rml_value("(a b"));
}

#[test]
fn test_rml_const() {
    assert_eq!(Ok(RMLNode::Constant(RMLValue::Str("abc".into()))), rml_instruction(r#"(const "abc")"#));
    assert_eq!(Ok(RMLNode::Constant(symbol("abc"))), rml_instruction("(const abc)"));
    assert_eq!(Ok(RMLNode::Constant(RMLValue::Num(42))), rml_instruction("(const 42)"));
    assert_eq!(
        Ok(RMLNode::Constant(RMLValue::Float(Number::new(42, 0)))),
        rml_instruction("(const 42.0)")
    );
    assert_eq!(
        Ok(RMLNode::Constant(RMLValue::List(vec![symbol("a"), symbol("b"), symbol("c")]))),
        rml_instruction("(const (a b c))")
    );
    assert_eq!(Ok(RMLNode::Constant(RMLValue::List(vec![]))), rml_instruction("(const ())"));
}

#[test]
fn test_rml_reg() {
    assert_eq!(Ok(RMLNode::Reg("a".into())), rml_instruction("(reg a)"));
    assert_eq!(Ok(RMLNode::Reg("a1".into())), rml_instruction("(reg a1)"));
    assert_eq!(Ok(RMLNode::Reg("_1234".into())), rml_instruction("(reg _1234)"));
    // A number is no register name: the form is only a list literal.
    assert_eq!(
        Ok(RMLNode::List(vec![symbol("reg"), RMLValue::Num(123)])),
        rml_instruction("(reg 123)")
    );
}

#[test]
fn test_rml_label() {
    for l in ["branch1", "branch-2", "branch_3"] {
        assert_eq!(Ok(RMLNode::Label(l.into())), rml_instruction(&format!("(label {})", l)));
    }
}

#[test]
fn test_rml_branch() {
    assert_eq!(
        Ok(RMLNode::Branch(Arc::new(RMLNode::Label("a".into())))),
        rml_instruction("(branch (label a))")
    );
}

#[test]
fn test_rml_goto() {
    assert_eq!(
        Ok(RMLNode::GotoLabel(Arc::new(RMLNode::Label("a".into())))),
        rml_instruction("(goto (label a))")
    );
    assert_eq!(
        Ok(RMLNode::GotoLabel(Arc::new(RMLNode::Reg("a".into())))),
        rml_instruction("(goto (reg a))")
    );
}

#[test]
fn test_rml_apply_operation() {
    assert_eq!(
        Ok(RMLNode::TestOp(Arc::new(RMLNode::Operation(
            "add".into(),
            vec![RMLNode::Reg("a".into()), RMLNode::Constant(RMLValue::Num(1))]
        )))),
        rml_instruction("(test (op add) (reg a) (const 1))")
    );
    assert_eq!(
        Ok(RMLNode::TestOp(Arc::new(RMLNode::Operation(
            "eq?".into(),
            vec![RMLNode::Reg("a".into()), RMLNode::Constant(RMLValue::Num(1))]
        )))),
        rml_instruction("(test (op eq?) (reg a) (const 1))")
    );
    assert_eq!(
        Ok(RMLNode::PerformOp(Arc::new(RMLNode::Operation("test".into(), vec![])))),
        rml_instruction("(perform (op test))")
    );
}

#[test]
fn test_rml_save_and_restore() {
    assert_eq!(Ok(RMLNode::Save("a".into())), rml_instruction("(save a)"));
    assert_eq!(Ok(RMLNode::Restore("a".into())), rml_instruction("(restore a)"));
}

#[test]
fn test_rml_assign() {
    assert_eq!(
        Ok(RMLNode::Assignment("a".into(), Arc::new(RMLNode::Reg("b".into())))),
        rml_instruction("(assign a (reg b))")
    );
    assert_eq!(
        Ok(RMLNode::Assignment("a".into(), Arc::new(RMLNode::Constant(RMLValue::Num(1))))),
        rml_instruction("(assign a (const 1))")
    );
    assert_eq!(
        Ok(RMLNode::Assignment(
            "a".into(),
            Arc::new(RMLNode::Operation(
                "add".into(),
                vec![RMLNode::Reg("b".into()), RMLNode::Constant(RMLValue::Num(1))]
            ))
        )),
        rml_instruction("(assign a (op add) (reg b) (const 1))")
    );
    assert_eq!(
        Ok(RMLNode::Assignment("a".into(), Arc::new(RMLNode::Label("b".into())))),
        rml_instruction("(assign a (label b))")
    );
}

#[test]
fn test_rml_instructions() {
    let instructions = r#"
        (controller
           ;;; comments
           (assign n (op read))  ; inline comment
           (test (op eq?) (reg n) (const q))
           (branch (label done))
           (assign m (const 42.0)))"#;
    assert_eq!(
        Ok(vec![
            RMLNode::Symbol("controller".into()),
            RMLNode::Assignment("n".into(), Arc::new(RMLNode::Operation("read".into(), vec![]))),
            RMLNode::TestOp(Arc::new(RMLNode::Operation(
                "eq?".into(),
                vec![RMLNode::Reg("n".into()), RMLNode::Constant(symbol("q"))]
            ))),
            RMLNode::Branch(Arc::new(RMLNode::Label("done".into()))),
            RMLNode::Assignment(
                "m".into(),
                Arc::new(RMLNode::Constant(RMLValue::Float(Number::new(42, 0))))
            ),
        ]),
        parse(instructions)
    );
}

#[test]
fn single_instruction_program() {
    assert_eq!(Ok(vec![RMLNode::Symbol("start".into())]), parse("start"));
    assert_eq!(Err(RMLParseError::BadSymbol), parse("42"));
    assert_eq!(Err(RMLParseError::ParseFailure { position: 0 }), parse(""));
    assert_eq!(Err(RMLParseError::ParseFailure { position: 4 }), parse("(a) b"));
}

#[test]
fn render_and_parse_round_trip() {
    let text = r#"(controller
      (perform (op print) (const "Please enter a number"))
      (assign n (op read))
      (test (op eq?) (reg n) (const q))
      (branch (label done))
      (assign val (const (1 2.50 -3 "x" (nested))))
      (assign continue (label fib-done))
     fib-loop
      (save continue)
      (goto (reg continue))
     done)"#;
    let nodes = parse(text).unwrap();
    let rendered = render_program(&nodes);
    assert_eq!(
        rendered,
        "(controller (perform (op print) (const \"Please enter a number\")) (assign n (op read)) \
         (test (op eq?) (reg n) (const q)) (branch (label done)) \
         (assign val (const (1 2.5 -3 \"x\" (nested)))) (assign continue (label fib-done)) \
         fib-loop (save continue) (goto (reg continue)) done)"
    );
    assert_eq!(Ok(nodes), parse(&rendered));
}

#[test]
fn decimals_render_with_their_point() {
    assert_eq!(RMLValue::Float(Number::new(42, 0)).to_text(), "42.0");
    assert_eq!(RMLValue::Float(Number::new(-5, 2)).to_text(), "-0.05");
    assert_eq!(RMLValue::Num(-17).to_text(), "-17");
}

#[test]
fn labels_are_suffix_starts() {
    let (insts, labels) = assemble("(controller a (save x) b c (save y) (save z) d)").unwrap();
    assert_eq!(insts.len(), 3);
    let starts: Vec<(String, usize)> = labels;
    assert_eq!(
        starts,
        vec![
            ("controller".to_string(), 0),
            ("a".to_string(), 0),
            ("b".to_string(), 1),
            ("c".to_string(), 1),
            ("d".to_string(), 3),
        ]
    );
}

#[test]
fn duplicate_labels_are_refused() {
    assert!(assemble("(controller a (save x) a)").is_err());
    assert!(assemble("(a (save x) b (save y) b)").is_err());
    let nodes = parse("(controller x (save x) y)").unwrap();
    assert!(assemble_nodes(nodes).is_ok());
    assert!(assemble("(controller (save x").is_err());
}

#[test]
fn literals_become_values() {
    let v = rmlvalue_to_value(&rml_value("(1 2.0 \"s\" t ())").unwrap());
    assert_eq!(
        v,
        Value::List(vec![
            Value::Num(Number::from_int(1)),
            Value::Num(Number::from_int(2)),
            Value::String("s".to_string()),
            Value::Symbol("t".to_string()),
            Value::List(vec![]),
        ])
    );
    assert_eq!(v.to_text(), "(1 2 \"s\" t ())");
}

#[test]
fn values_display() {
    assert_eq!(Value::Boolean(true).to_text(), "#t");
    assert_eq!(Value::Boolean(false).to_text(), "#f");
    assert_eq!(Value::Nil.to_text(), "");
    assert_eq!(Value::Pointer(7).to_text(), "Pointer-7");
    assert_eq!(Value::Num(Number::new(-1250, 3)).to_text(), "-1.25");
    assert_eq!(
        Value::List(vec![Value::Nil, Value::Symbol("a".into()), Value::Nil, Value::Symbol("b".into())]).to_text(),
        "(a b)"
    );
    assert_eq!(reg_machine::render::values_to_str(&vec![Value::Nil]), "()");
}
