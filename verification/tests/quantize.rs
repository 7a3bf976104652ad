use ajisai::error::AjisaiError;
use ajisai::interpreter::{ConsumptionMode, Interpreter};
use ajisai::quantize::{op_quantize, quantize_pair};
use ajisai::rational::Fraction;
use ajisai::value::{NilReason, RecordData, Value};

fn frac(n: i64, d: i64) -> Value {
    Value::from_fraction(Fraction::new(n, d).unwrap())
}

fn num(n: i64) -> Value {
    Value::from_int(n)
}

fn parts(v: &Value) -> (i64, i64) {
    let f = v.as_scalar().expect("a number");
    (f.numerator(), f.denominator())
}

fn quantize(x: Value, d: Value) -> Result<Value, AjisaiError> {
    let mut interp = Interpreter::new();
    interp.stack.push(x);
    interp.stack.push(d);
    op_quantize(&mut interp)?;
    assert_eq!(interp.stack.len(), 1);
    Ok(interp.stack.pop().unwrap())
}

#[test]
fn quantize_rounds_to_the_nearest_multiple() {
    assert_eq!(parts(&quantize(frac(1, 3), num(10)).unwrap()), (3, 10));
    assert_eq!(parts(&quantize(frac(7, 3), num(1)).unwrap()), (2, 1));
    assert_eq!(parts(&quantize(frac(23, 10), num(2)).unwrap()), (5, 2));
    assert_eq!(parts(&quantize(num(7), num(4)).unwrap()), (7, 1));
}

#[test]
fn quantize_ties_go_away_from_zero() {
    assert_eq!(parts(&quantize(frac(1, 4), num(2)).unwrap()), (1, 2));
    assert_eq!(parts(&quantize(frac(-1, 4), num(2)).unwrap()), (-1, 2));
    assert_eq!(parts(&quantize(frac(5, 2), num(1)).unwrap()), (3, 1));
    assert_eq!(parts(&quantize(frac(-5, 2), num(1)).unwrap()), (-3, 1));
}

#[test]
fn quantize_projects_on_a_denominator_outside_its_domain() {
    for d in [num(0), num(-4), frac(3, 2)] {
        let answer = quantize(num(7), d).unwrap();
        assert!(answer.is_nil());
        assert_eq!(answer.absence_metadata().unwrap().reason, Some(NilReason::DomainMiss));
    }
}

#[test]
fn quantize_refuses_a_denominator_that_is_not_a_number() {
    let mut interp = Interpreter::new();
    interp.stack.push(num(7));
    interp.stack.push(Value::from_string("ten"));
    match op_quantize(&mut interp).unwrap_err() {
        AjisaiError::Declared { condition, .. } => assert_eq!(condition, "nonNumeric"),
        other => panic!("unexpected {:?}", other),
    }
    assert_eq!(interp.stack.len(), 2);
    let multi = quantize_pair(&num(7), &Value::from_vector(vec![num(1), num(2)]));
    assert!(matches!(multi, Err(AjisaiError::Declared { condition: "nonNumeric", .. })));
}

#[test]
fn quantize_lifts_over_vectors_and_records() {
    let v = quantize(Value::from_vector(vec![frac(1, 3), frac(2, 3), Value::nil()]), Value::from_vector(vec![num(3)])).unwrap();
    let lanes = v.as_vector().unwrap();
    assert_eq!(parts(&lanes[0]), (1, 3));
    assert_eq!(parts(&lanes[1]), (2, 3));
    assert!(lanes[2].is_nil());

    let rec = Value::from_record(RecordData::new(vec![Value::from_string("x")], vec![frac(1, 3)]).unwrap());
    let q = quantize(rec, num(10)).unwrap();
    let r = q.as_record().unwrap();
    assert_eq!(r.keys[0].as_text(), Some("x"));
    assert_eq!(parts(&r.values[0]), (3, 10));
}

#[test]
fn quantize_passes_nil_and_underflows_on_one_operand() {
    assert!(quantize(Value::nil(), num(10)).unwrap().is_nil());
    let mut interp = Interpreter::new();
    interp.stack.push(num(1));
    assert!(matches!(op_quantize(&mut interp).unwrap_err(), AjisaiError::StackUnderflow));
    let mut keep = Interpreter::new();
    keep.consumption_mode = ConsumptionMode::Keep;
    keep.stack.push(frac(1, 3));
    keep.stack.push(num(10));
    op_quantize(&mut keep).unwrap();
    assert_eq!(keep.stack.len(), 3);
    assert_eq!(parts(&keep.stack[2]), (3, 10));
}

#[test]
fn quantize_names_the_kind_of_a_bad_denominator() {
    let detail = |d: Value| match quantize_pair(&num(7), &d) {
        Err(AjisaiError::Declared { condition: "nonNumeric", detail }) => detail,
        other => panic!("unexpected {:?}", other),
    };
    assert_eq!(detail(Value::from_string("ten")), "QUANTIZE: expected a number, got a string");
    assert_eq!(detail(Value::from_bool(true)), "QUANTIZE: expected a number, got a boolean");
    assert_eq!(
        detail(Value::from_vector(vec![num(1), num(2)])),
        "QUANTIZE: expected a single-element number, got a multi-element vector"
    );
}
