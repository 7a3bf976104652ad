use ajisai::dictionary::parse_sample_definition_body;
use ajisai::error::AjisaiError;
use ajisai::interpreter::Interpreter;
use ajisai::nil_diagnostics::{op_nil_check, op_nil_reason};
use ajisai::register_ops::{op_r_add, op_r_div, op_r_mul, op_r_sub};
use ajisai::value::{NilReason, Recoverability, Token, Value};

fn with_register(top: Value, reg: Value) -> Interpreter {
    let mut interp = Interpreter::new();
    interp.stack.push(top);
    interp.register = Some(reg);
    interp
}

#[test]
fn register_words_combine_the_top_with_the_register() {
    let mut a = with_register(Value::from_int(7), Value::from_int(3));
    op_r_add(&mut a).unwrap();
    assert_eq!(a.stack[0].as_i64(), Some(10));

    let mut s = with_register(Value::from_int(7), Value::from_int(3));
    op_r_sub(&mut s).unwrap();
    assert_eq!(s.stack[0].as_i64(), Some(4));

    let mut m = with_register(Value::from_vector(vec![Value::from_int(1), Value::from_int(2)]), Value::from_int(3));
    op_r_mul(&mut m).unwrap();
    let lanes = m.stack[0].as_vector().unwrap();
    assert_eq!(lanes[0].as_i64(), Some(3));
    assert_eq!(lanes[1].as_i64(), Some(6));

    let mut d = with_register(Value::from_int(7), Value::from_int(2));
    op_r_div(&mut d).unwrap();
    let f = d.stack[0].as_scalar().unwrap();
    assert_eq!((f.numerator(), f.denominator()), (7, 2));
}

#[test]
fn register_words_refuse_an_empty_register_and_a_zero_divisor() {
    let mut empty = Interpreter::new();
    empty.stack.push(Value::from_int(1));
    assert!(matches!(op_r_add(&mut empty), Err(AjisaiError::RegisterEmpty)));

    let mut zero = with_register(Value::from_int(1), Value::from_int(0));
    assert!(matches!(op_r_div(&mut zero), Err(AjisaiError::DivisionByZero)));

    let mut none = Interpreter::new();
    assert!(matches!(op_r_sub(&mut none), Err(AjisaiError::StackUnderflow)));
}

#[test]
fn nil_check_answers_whether_the_top_was_a_nil() {
    let mut interp = Interpreter::new();
    interp.stack.push(Value::nil());
    op_nil_check(&mut interp).unwrap();
    assert_eq!(interp.stack.len(), 2, "NIL? keeps the inspected value");
    assert!(interp.stack[0].is_nil());
    assert!(interp.stack[1].is_truthy());
    let mut present = Interpreter::new();
    present.stack.push(Value::from_int(5));
    op_nil_check(&mut present).unwrap();
    assert_eq!(present.stack.len(), 2);
    assert_eq!(present.stack[0].as_i64(), Some(5));
    assert!(!present.stack[1].is_truthy());
    assert!(!present.stack[1].is_nil());
}

#[test]
fn nil_reason_reads_the_protocol_name() {
    let mut interp = Interpreter::new();
    interp.stack.push(Value::nil_with_reason(NilReason::DivisionByZero, Recoverability::Recoverable));
    op_nil_reason(&mut interp).unwrap();
    assert_eq!(interp.stack.len(), 2, "NIL-REASON keeps the inspected value");
    assert!(interp.stack[0].is_nil());
    assert_eq!(interp.stack[1].as_text(), Some("divisionByZero"));

    let mut present = Interpreter::new();
    present.stack.push(Value::from_int(5));
    op_nil_reason(&mut present).unwrap();
    assert_eq!(present.stack.len(), 2);
    assert_eq!(present.stack[0].as_i64(), Some(5));
    let projected = &present.stack[1];
    assert!(projected.is_nil());
    assert_eq!(projected.absence_metadata().unwrap().reason, Some(NilReason::NotAvailable));
    op_nil_reason(&mut present).unwrap();
    assert_eq!(present.stack[2].as_text(), Some("notAvailable"));
}

#[test]
fn a_sample_body_splits_at_line_breaks() {
    let body = vec![
        Token::Number("1".to_string()),
        Token::LineBreak,
        Token::LineBreak,
        Token::Symbol("ADD".to_string()),
        Token::Number("2".to_string()),
        Token::LineBreak,
    ];
    let lines = parse_sample_definition_body(&body).unwrap();
    assert_eq!(lines.len(), 2);
    assert_eq!(lines[0].body_tokens, vec![Token::Number("1".to_string())]);
    assert_eq!(lines[1].body_tokens.len(), 2);
    match parse_sample_definition_body(&[Token::LineBreak]) {
        Err(AjisaiError::Message(m)) => assert_eq!(m, "Sample word definition cannot be empty"),
        other => panic!("unexpected {:?}", other.map(|l| l.len())),
    }
}
