use ajisai::interpreter::Interpreter;
use ajisai::nil_diagnostics::{op_nil_check, op_nil_reason};
use ajisai::value::{NilReason, Recoverability, Value};

fn div_by_zero_nil() -> Value {
    Value::nil_with_reason(NilReason::DivisionByZero, Recoverability::Recoverable)
}

fn run(op: fn(&mut Interpreter) -> Result<(), ajisai::error::AjisaiError>, v: Value) -> Interpreter {
    let mut interp = Interpreter::new();
    interp.stack.push(v);
    op(&mut interp).unwrap();
    interp
}

#[test]
fn nil_check_is_true_for_operational_nil_and_retains_source() {
    let interp = run(op_nil_check, div_by_zero_nil());
    assert_eq!(interp.stack.len(), 2);
    assert!(interp.stack[0].is_nil());
    assert!(interp.stack[1].is_truthy());
}

#[test]
fn nil_check_is_false_for_present_value() {
    let interp = run(op_nil_check, Value::from_int(5));
    assert_eq!(interp.stack.len(), 2);
    assert!(!interp.stack[1].is_truthy());
    assert!(!interp.stack[1].is_nil());
}

#[test]
fn nil_check_answers_rather_than_projecting() {
    for (v, expected) in [
        (Value::from_int(5), false),
        (Value::from_vector(vec![Value::from_int(1), Value::from_int(2)]), false),
        (Value::from_string("ab"), false),
        (Value::nil(), true),
        (div_by_zero_nil(), true),
    ] {
        let interp = run(op_nil_check, v);
        let answer = interp.stack.last().unwrap();
        assert!(!answer.is_nil());
        assert_eq!(answer.is_truthy(), expected);
    }
}

#[test]
fn nil_reason_reports_division_by_zero_protocol_string() {
    let interp = run(op_nil_reason, div_by_zero_nil());
    assert_eq!(interp.stack.len(), 2);
    assert!(interp.stack[0].is_nil());
    assert_eq!(interp.stack[1].as_text(), Some("divisionByZero"));
}

#[test]
fn nil_reason_is_nil_for_present_value() {
    let interp = run(op_nil_reason, Value::from_int(5));
    assert!(interp.stack[1].is_nil());
    assert!(!interp.stack[0].is_nil());
}

#[test]
fn bubble_creation_nil_reason_projects_on_a_reasonless_value() {
    for v in [
        Value::from_int(5),
        Value::from_vector(vec![Value::from_int(1), Value::from_int(2)]),
        Value::from_string("ab"),
    ] {
        let mut interp = run(op_nil_reason, v);
        assert_eq!(interp.stack[1].absence_metadata().unwrap().reason, Some(NilReason::NotAvailable));
        op_nil_reason(&mut interp).unwrap();
        assert_eq!(interp.stack[2].as_text(), Some("notAvailable"));
    }
}
