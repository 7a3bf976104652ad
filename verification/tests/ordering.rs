use ajisai::error::AjisaiError;
use ajisai::interpreter::{ConsumptionMode, Interpreter};
use ajisai::ordering::stable_order;
use ajisai::ordering_ops::{op_group, op_order, op_tally, op_unique};
use ajisai::rational::Fraction;
use ajisai::value::{Interpretation, Value};

fn num(n: i64) -> Value {
    Value::from_int(n)
}

fn ints(ns: &[i64]) -> Value {
    Value::from_vector(ns.iter().map(|&n| num(n)).collect())
}

fn texts(ss: &[&str]) -> Value {
    Value::from_vector(ss.iter().map(|s| Value::from_string(s)).collect())
}

fn run(word: fn(&mut Interpreter) -> Result<(), AjisaiError>, operands: Vec<Value>) -> Interpreter {
    let mut interp = Interpreter::new();
    for v in operands {
        interp.stack.push(v);
    }
    word(&mut interp).expect("the word must compute");
    interp
}

fn top_ints(interp: &Interpreter) -> Vec<i64> {
    interp.stack.last().unwrap().as_vector().unwrap().iter().map(|v| v.as_i64().unwrap()).collect()
}

fn top_texts(interp: &Interpreter) -> Vec<String> {
    interp
        .stack
        .last()
        .unwrap()
        .as_vector()
        .unwrap()
        .iter()
        .map(|v| v.as_text().unwrap().to_string())
        .collect()
}

#[test]
fn order_is_the_stable_ascending_permutation() {
    let interp = run(op_order, vec![ints(&[30, 10, 20, 10])]);
    assert_eq!(top_ints(&interp), vec![1, 3, 2, 0]);
    assert_eq!(interp.stack.last().unwrap().hint, Interpretation::Unassigned);
    let empty = run(op_order, vec![ints(&[])]);
    assert!(top_ints(&empty).is_empty());
}

#[test]
fn order_compares_exact_rationals() {
    let half = Value::from_fraction(Fraction::new(1, 2).unwrap());
    let third = Value::from_fraction(Fraction::new(1, 3).unwrap());
    let interp = run(op_order, vec![Value::from_vector(vec![half, third, num(-1)])]);
    assert_eq!(top_ints(&interp), vec![2, 1, 0]);
    let keys = vec![Fraction::new(2, 4).unwrap(), Fraction::new(1, 2).unwrap(), Fraction::new(0, 1).unwrap()];
    assert_eq!(stable_order(&keys), vec![2, 0, 1]);
}

#[test]
fn order_passes_nil_through_and_rejects_other_values() {
    let nil = run(op_order, vec![Value::nil()]);
    assert!(nil.stack.last().unwrap().is_nil());

    let mut interp = Interpreter::new();
    interp.stack.push(num(3));
    assert!(matches!(op_order(&mut interp), Err(AjisaiError::StructureError { .. })));
    assert_eq!(interp.stack.len(), 1);

    let mut mixed = Interpreter::new();
    mixed.stack.push(Value::from_vector(vec![num(1), Value::from_string("a")]));
    assert!(matches!(op_order(&mut mixed), Err(AjisaiError::TypeError { .. })));
    assert_eq!(mixed.stack.len(), 1);
}

#[test]
fn a_dense_scan_reports_distinct_lanes_in_first_occurrence_order() {
    for (input, expected) in [
        (vec![3, 1, 3, 1, 2], vec![3, 1, 2]),
        (vec![9, 5, 9, 1, 5], vec![9, 5, 1]),
        (vec![-1, 2, -1], vec![-1, 2]),
        (vec![7, 7, 7], vec![7]),
        (vec![0, 1, 2, 3, 4], vec![0, 1, 2, 3, 4]),
    ] {
        let interp = run(op_unique, vec![ints(&input)]);
        assert_eq!(top_ints(&interp), expected, "UNIQUE of {input:?}");
    }
}

#[test]
fn a_dense_scan_counts_in_the_order_unique_reports() {
    for (input, expected) in [
        (vec![3, 1, 3, 1, 2], vec![2, 2, 1]),
        (vec![9, 5, 9, 1, 5], vec![2, 2, 1]),
        (vec![7, 7, 7], vec![3]),
        (vec![0, 1, 2, 3, 4], vec![1, 1, 1, 1, 1]),
    ] {
        let interp = run(op_tally, vec![ints(&input)]);
        assert_eq!(top_ints(&interp), expected, "TALLY of {input:?}");
    }
    let counts = top_ints(&run(op_tally, vec![ints(&[3, 1, 3, 1, 2])]));
    let distinct = top_ints(&run(op_unique, vec![ints(&[3, 1, 3, 1, 2])]));
    assert_eq!(counts.len(), distinct.len());
    assert_eq!(counts.iter().sum::<i64>(), 5);
}

#[test]
fn unique_works_on_text_and_equal_rationals() {
    let interp = run(op_unique, vec![texts(&["b", "a", "b"])]);
    assert_eq!(top_texts(&interp), vec!["b", "a"]);
    let two = Value::from_fraction(Fraction::new(4, 2).unwrap());
    let interp = run(op_unique, vec![Value::from_vector(vec![num(2), two])]);
    assert_eq!(top_ints(&interp), vec![2]);
}

#[test]
fn group_bundles_values_by_key_in_first_occurrence_order() {
    let interp = run(op_group, vec![texts(&["b", "a", "b", "a"]), ints(&[1, 2, 3, 4])]);
    let rec = interp.stack.last().unwrap().as_record().expect("GROUP answers a record");
    let keys: Vec<&str> = rec.keys.iter().map(|k| k.as_text().unwrap()).collect();
    assert_eq!(keys, vec!["b", "a"]);
    let first: Vec<i64> = rec.values[0].as_vector().unwrap().iter().map(|v| v.as_i64().unwrap()).collect();
    let second: Vec<i64> = rec.values[1].as_vector().unwrap().iter().map(|v| v.as_i64().unwrap()).collect();
    assert_eq!(first, vec![1, 3]);
    assert_eq!(second, vec![2, 4]);
}

#[test]
fn group_answers_a_record_read_by_key() {
    let interp = run(op_group, vec![texts(&["a", "b", "a"]), ints(&[1, 2, 3])]);
    let rec = interp.stack.last().unwrap().as_record().unwrap();
    assert_eq!(rec.keys[0].as_text(), Some("a"));
    let a: Vec<i64> = rec.values[0].as_vector().unwrap().iter().map(|v| v.as_i64().unwrap()).collect();
    assert_eq!(a, vec![1, 3]);
}

#[test]
fn group_rejects_mismatched_lengths_and_restores_operands() {
    let mut interp = Interpreter::new();
    interp.stack.push(texts(&["a"]));
    interp.stack.push(ints(&[1, 2]));
    assert!(matches!(
        op_group(&mut interp),
        Err(AjisaiError::VectorLengthMismatch { len1: 1, len2: 2 })
    ));
    assert_eq!(interp.stack.len(), 2);

    let mut keep = Interpreter::new();
    keep.consumption_mode = ConsumptionMode::Keep;
    keep.stack.push(texts(&["a"]));
    keep.stack.push(ints(&[1]));
    op_group(&mut keep).unwrap();
    assert_eq!(keep.stack.len(), 3);
}
