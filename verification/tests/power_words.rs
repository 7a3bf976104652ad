use ajisai::error::AjisaiError;
use ajisai::interpreter::Interpreter;
use ajisai::power_ops::{op_gcd, op_ratio};
use ajisai::rational::Fraction;
use ajisai::value::{Interpretation, NilReason, RecordData, Recoverability, Value};

fn num(n: i64) -> Value {
    Value::from_int(n)
}

fn frac(n: i64, d: i64) -> Value {
    Value::from_fraction(Fraction::new(n, d).unwrap())
}

fn run2(op: fn(&mut Interpreter) -> Result<(), AjisaiError>, a: Value, b: Value) -> Result<Value, AjisaiError> {
    let mut interp = Interpreter::new();
    interp.stack.push(a);
    interp.stack.push(b);
    op(&mut interp)?;
    assert_eq!(interp.stack.len(), 1);
    Ok(interp.stack.pop().unwrap())
}

fn run1(op: fn(&mut Interpreter) -> Result<(), AjisaiError>, a: Value) -> Result<Value, AjisaiError> {
    let mut interp = Interpreter::new();
    interp.stack.push(a);
    op(&mut interp)?;
    Ok(interp.stack.pop().unwrap())
}

fn ints(v: &Value) -> Vec<i64> {
    v.as_vector().unwrap().iter().map(|x| x.as_i64().unwrap()).collect()
}

#[test]
fn gcd_of_integers() {
    let g = run2(op_gcd, num(12), num(18)).unwrap();
    assert_eq!(g.as_i64(), Some(6));
    assert_eq!(g.hint, Interpretation::RawNumber);
    assert_eq!(run2(op_gcd, num(-4), num(6)).unwrap().as_i64(), Some(2));
    assert_eq!(run2(op_gcd, num(0), num(0)).unwrap().as_i64(), Some(0));
    assert_eq!(run2(op_gcd, num(0), num(-7)).unwrap().as_i64(), Some(7));
}

#[test]
fn gcd_of_a_non_integer_projects_a_domain_miss() {
    let g = run2(op_gcd, frac(3, 2), num(4)).unwrap();
    assert!(g.is_nil());
    assert_eq!(g.hint, Interpretation::Nil);
    let absence = g.absence_metadata().unwrap();
    assert_eq!(absence.reason, Some(NilReason::DomainMiss));
    assert_eq!(absence.recoverability, Recoverability::Recoverable);
}

#[test]
fn gcd_lifts_over_vectors_and_records() {
    assert_eq!(ints(&run2(op_gcd, Value::from_vector(vec![num(12), num(18)]), num(6)).unwrap()), vec![6, 6]);
    let rec = Value::from_record(RecordData::new(vec![Value::from_string("a")], vec![num(12)]).unwrap());
    let r = run2(op_gcd, rec, num(8)).unwrap();
    assert_eq!(r.as_record().unwrap().values[0].as_i64(), Some(4));
}

#[test]
fn gcd_refuses_text_and_restores_the_stack() {
    let mut interp = Interpreter::new();
    interp.stack.push(Value::from_string("x"));
    interp.stack.push(num(3));
    match op_gcd(&mut interp).unwrap_err() {
        AjisaiError::Declared { condition, .. } => assert_eq!(condition, "nonNumeric"),
        other => panic!("unexpected {:?}", other),
    }
    assert_eq!(interp.stack.len(), 2);
    let a = Value::from_record(RecordData::new(vec![Value::from_string("a")], vec![num(1)]).unwrap());
    let b = Value::from_record(RecordData::new(vec![Value::from_string("b")], vec![num(1)]).unwrap());
    assert!(matches!(run2(op_gcd, a, b), Err(AjisaiError::Declared { condition: "shapeMismatch", .. })));
}

#[test]
fn ratio_reads_the_parts_back() {
    let r = run1(op_ratio, frac(3, 4)).unwrap();
    assert_eq!(ints(&r), vec![3, 4]);
    assert_eq!(r.hint, Interpretation::Unassigned);
    assert_eq!(ints(&run1(op_ratio, frac(-6, 4)).unwrap()), vec![-3, 2]);
    assert_eq!(ints(&run1(op_ratio, num(5)).unwrap()), vec![5, 1]);
    let lanes = run1(op_ratio, Value::from_vector(vec![frac(1, 2), num(5)])).unwrap();
    let v = lanes.as_vector().unwrap();
    assert_eq!(ints(&v[0]), vec![1, 2]);
    assert_eq!(ints(&v[1]), vec![5, 1]);
}

#[test]
fn ratio_passes_nil_and_refuses_text() {
    let n = run1(op_ratio, Value::nil()).unwrap();
    assert!(n.is_nil());
    assert_eq!(n.hint, Interpretation::Nil);
    assert!(matches!(run1(op_ratio, Value::from_string("x")), Err(AjisaiError::Declared { condition: "nonNumeric", .. })));
}

#[test]
fn numeric_refusals_carry_their_word_in_the_detail() {
    match run2(op_gcd, Value::from_string("x"), num(3)) {
        Err(AjisaiError::Declared { condition: "nonNumeric", detail }) => {
            assert_eq!(detail, "GCD: expected a number, got a non-numeric value")
        }
        other => panic!("unexpected {:?}", other),
    }
    match run1(op_ratio, Value::from_string("x")) {
        Err(AjisaiError::Declared { condition: "nonNumeric", detail }) => {
            assert_eq!(detail, "RATIO: expected a number, got a non-numeric value")
        }
        other => panic!("unexpected {:?}", other),
    }
    let a = Value::from_record(RecordData::new(vec![Value::from_string("a")], vec![num(1)]).unwrap());
    let b = Value::from_record(RecordData::new(vec![Value::from_string("b")], vec![num(1)]).unwrap());
    match run2(op_gcd, a, b) {
        Err(AjisaiError::Declared { condition: "shapeMismatch", detail }) => {
            assert_eq!(detail, "two Records combine only when their key sequences are equal")
        }
        other => panic!("unexpected {:?}", other),
    }
}
