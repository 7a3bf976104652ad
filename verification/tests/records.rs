use ajisai::error::AjisaiError;
use ajisai::interpreter::{ConsumptionMode, Interpreter};
use ajisai::record_ops::{op_at, op_has, op_keys, op_merge, op_record, op_values, op_with, op_without};
use ajisai::records::RecordBuildError;
use ajisai::value::RecordData;
use ajisai::value::{values_equal, NilReason, Value, ValueData};

fn text(s: &str) -> Value {
    Value::from_string(s)
}

fn num(n: i64) -> Value {
    Value::from_int(n)
}

fn vector(items: Vec<Value>) -> Value {
    Value::from_vector(items)
}

fn xy_record() -> Value {
    Value::from_record(RecordData::new(vec![text("x"), text("y")], vec![num(1), num(2)]).unwrap())
}

fn interp_with(values: Vec<Value>) -> Interpreter {
    let mut interp = Interpreter::new();
    for v in values {
        interp.stack.push(v);
    }
    interp
}

fn top(interp: &Interpreter) -> &Value {
    interp.stack.last().expect("an answer")
}

fn keys_of(v: &Value) -> Vec<String> {
    match &v.data {
        ValueData::Record(r) => r.keys.iter().map(|k| k.as_text().unwrap_or("?").to_string()).collect(),
        _ => panic!("not a record"),
    }
}

fn values_of(v: &Value) -> Vec<i64> {
    match &v.data {
        ValueData::Record(r) => r.values.iter().map(|x| x.as_i64().unwrap()).collect(),
        _ => panic!("not a record"),
    }
}

#[test]
fn record_builds_and_reads_back_in_order() {
    let mut interp = interp_with(vec![vector(vec![text("x"), text("y")]), vector(vec![num(1), num(2)])]);
    op_record(&mut interp).unwrap();
    assert_eq!(interp.stack.len(), 1);
    assert_eq!(keys_of(top(&interp)), vec!["x", "y"]);
    assert_eq!(values_of(top(&interp)), vec![1, 2]);

    let mut k = interp_with(vec![xy_record()]);
    op_keys(&mut k).unwrap();
    let keys = top(&k).as_vector().unwrap();
    assert_eq!(keys.len(), 2);
    assert_eq!(keys[1].as_text(), Some("y"));

    let mut v = interp_with(vec![xy_record()]);
    op_values(&mut v).unwrap();
    let values = top(&v).as_vector().unwrap();
    assert_eq!(values[0].as_i64(), Some(1));

    let mut empty = interp_with(vec![vector(vec![]), vector(vec![])]);
    op_record(&mut empty).unwrap();
    assert!(keys_of(top(&empty)).is_empty());
}

#[test]
fn keys_and_values_rebuild_the_same_record() {
    let mut a = interp_with(vec![xy_record()]);
    op_keys(&mut a).unwrap();
    let keys = a.stack.pop().unwrap();
    let mut b = interp_with(vec![xy_record()]);
    op_values(&mut b).unwrap();
    let values = b.stack.pop().unwrap();
    let mut c = interp_with(vec![keys, values]);
    op_record(&mut c).unwrap();
    assert!(values_equal(top(&c), &xy_record()));
}

#[test]
fn record_rejects_malformed_key_vectors() {
    let mut dup = interp_with(vec![vector(vec![text("a"), text("a")]), vector(vec![num(1), num(2)])]);
    match op_record(&mut dup) {
        Err(AjisaiError::Declared { condition, detail }) => {
            assert_eq!(condition, "duplicateKey");
            assert_eq!(detail, "the key at position 1 repeats the key at position 0; a Record holds each key once");
        }
        other => panic!("expected duplicateKey, got {other:?}"),
    }
    assert_eq!(dup.stack.len(), 2);

    let mut short = interp_with(vec![vector(vec![text("a")]), vector(vec![num(1), num(2)])]);
    assert!(matches!(
        op_record(&mut short),
        Err(AjisaiError::VectorLengthMismatch { len1: 1, len2: 2 })
    ));
    assert_eq!(short.stack.len(), 2);

    let mut not_vector = interp_with(vec![text("a"), vector(vec![num(1)])]);
    assert!(matches!(op_record(&mut not_vector), Err(AjisaiError::StructureError { .. })));
    assert_eq!(not_vector.stack.len(), 2);

    assert!(matches!(
        RecordData::new(vec![num(1), num(1)], vec![num(1), num(2)]),
        Err(RecordBuildError::DuplicateKey { first: 0, second: 1 })
    ));
}

#[test]
fn at_reads_by_key_and_projects_not_found() {
    let mut found = interp_with(vec![xy_record(), text("y")]);
    op_at(&mut found).unwrap();
    assert_eq!(top(&found).as_i64(), Some(2));

    let mut missing = interp_with(vec![xy_record(), text("z")]);
    op_at(&mut missing).unwrap();
    assert!(top(&missing).is_nil());
    assert_eq!(top(&missing).nil_reason(), Some(NilReason::NotFound));

    let mut wrong = interp_with(vec![num(5), text("x")]);
    match op_at(&mut wrong) {
        Err(AjisaiError::Declared { condition, detail }) => {
            assert_eq!(condition, "nonRecord");
            assert_eq!(detail, "expected a Record as the first operand, got number");
        }
        other => panic!("expected nonRecord, got {other:?}"),
    }
    assert_eq!(wrong.stack.len(), 2);
}

#[test]
fn with_sets_in_place_or_appends() {
    let mut replace = interp_with(vec![xy_record(), text("x"), num(9)]);
    op_with(&mut replace).unwrap();
    assert_eq!(keys_of(top(&replace)), vec!["x", "y"]);
    assert_eq!(values_of(top(&replace)), vec![9, 2]);

    let mut append = interp_with(vec![xy_record(), text("z"), num(3)]);
    op_with(&mut append).unwrap();
    assert_eq!(keys_of(top(&append)), vec!["x", "y", "z"]);

    let mut nil_key = interp_with(vec![xy_record(), Value::nil(), num(1)]);
    assert!(op_with(&mut nil_key).is_err());
    assert_eq!(nil_key.stack.len(), 3);
}

#[test]
fn keep_mode_leaves_the_operands_under_the_answer() {
    let mut interp = interp_with(vec![xy_record(), text("x")]);
    interp.consumption_mode = ConsumptionMode::Keep;
    op_has(&mut interp).unwrap();
    assert_eq!(interp.stack.len(), 3);
    assert!(matches!(top(&interp).data, ValueData::Boolean(true)));
}

#[test]
fn without_removes_or_projects() {
    let mut removed = interp_with(vec![xy_record(), text("x")]);
    op_without(&mut removed).unwrap();
    assert_eq!(keys_of(top(&removed)), vec!["y"]);
    assert_eq!(values_of(top(&removed)), vec![2]);

    let mut missing = interp_with(vec![xy_record(), text("z")]);
    op_without(&mut missing).unwrap();
    assert_eq!(top(&missing).nil_reason(), Some(NilReason::NotFound));
}

#[test]
fn has_sees_present_keys_only() {
    let mut yes = interp_with(vec![xy_record(), text("x")]);
    op_has(&mut yes).unwrap();
    assert!(matches!(top(&yes).data, ValueData::Boolean(true)));
    let mut no = interp_with(vec![xy_record(), text("n")]);
    op_has(&mut no).unwrap();
    assert!(matches!(top(&no).data, ValueData::Boolean(false)));
}

#[test]
fn merge_is_right_biased_and_order_preserving() {
    let right = Value::from_record(RecordData::new(vec![text("y"), text("z")], vec![num(9), num(3)]).unwrap());
    let mut interp = interp_with(vec![xy_record(), right]);
    op_merge(&mut interp).unwrap();
    assert_eq!(keys_of(top(&interp)), vec!["x", "y", "z"]);
    assert_eq!(values_of(top(&interp)), vec![1, 9, 3]);

    let mut bad = interp_with(vec![xy_record(), vector(vec![num(1)])]);
    match op_merge(&mut bad) {
        Err(AjisaiError::Declared { condition, detail }) => {
            assert_eq!(condition, "nonRecord");
            assert_eq!(detail, "expected a Record as the second operand, got vector");
        }
        other => panic!("expected nonRecord, got {other:?}"),
    }
}

#[test]
fn keys_are_compared_as_values() {
    let rec = RecordData::new(vec![num(1), Value::from_bool(true)], vec![text("one"), text("yes")]).unwrap();
    let half = Value::from_fraction(ajisai::rational::Fraction::new(2, 2).unwrap());
    assert_eq!(rec.get(&half).and_then(|v| v.as_text()), Some("one"));
    assert!(!rec.has(&num(2)));
}
