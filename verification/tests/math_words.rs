use ajisai::error::AjisaiError;
use ajisai::interpreter::{ConsumptionMode, Interpreter};
use ajisai::math_ops::{op_abs, op_max, op_min, op_neg};
use ajisai::rational::Fraction;
use ajisai::value::{Interpretation, Value};

fn num(n: i64) -> Value {
    Value::from_int(n)
}

fn frac(n: i64, d: i64) -> Value {
    Value::from_fraction(Fraction::new(n, d).unwrap())
}

fn vector(items: Vec<Value>) -> Value {
    Value::from_vector(items)
}

fn interp_with(values: Vec<Value>) -> Interpreter {
    let mut interp = Interpreter::new();
    for v in values {
        interp.stack.push(v);
    }
    interp
}

fn ints_of(v: &Value) -> Vec<i64> {
    v.as_vector().expect("a vector").iter().map(|x| x.as_i64().expect("an integer")).collect()
}

#[test]
fn max_with_a_scalar_rectifies_a_vector() {
    let mut interp = interp_with(vec![vector(vec![num(-1), num(2), num(-3)]), num(0)]);
    op_max(&mut interp).unwrap();
    assert_eq!(interp.stack.len(), 1);
    assert_eq!(ints_of(&interp.stack[0]), vec![0, 2, 0]);
    assert_eq!(interp.stack[0].hint, Interpretation::RawNumber);
}

#[test]
fn a_length_one_vector_stretches_like_a_scalar() {
    let mut interp = interp_with(vec![vector(vec![num(-1), num(2), num(-3)]), vector(vec![num(0)])]);
    op_max(&mut interp).unwrap();
    assert_eq!(ints_of(&interp.stack[0]), vec![0, 2, 0]);

    let mut left = interp_with(vec![vector(vec![num(1)]), vector(vec![num(4), num(-2)])]);
    op_min(&mut left).unwrap();
    assert_eq!(ints_of(&left.stack[0]), vec![1, -2]);
}

#[test]
fn min_pairs_equal_lengths_element_wise() {
    let mut interp = interp_with(vec![vector(vec![num(1), num(5)]), vector(vec![num(3), num(2)])]);
    op_min(&mut interp).unwrap();
    assert_eq!(ints_of(&interp.stack[0]), vec![1, 2]);
}

#[test]
fn min_and_max_of_two_scalars() {
    let mut a = interp_with(vec![num(7), frac(15, 2)]);
    op_min(&mut a).unwrap();
    assert_eq!(a.stack[0].as_i64(), Some(7));

    let mut b = interp_with(vec![num(7), frac(15, 2)]);
    op_max(&mut b).unwrap();
    let f = b.stack[0].as_scalar().unwrap();
    assert_eq!((f.numerator(), f.denominator()), (15, 2));
}

#[test]
fn unequal_vector_lengths_are_a_shape_error_and_restore_the_stack() {
    let mut interp = interp_with(vec![vector(vec![num(1), num(2)]), vector(vec![num(1), num(2), num(3)])]);
    let err = op_max(&mut interp).unwrap_err();
    assert!(matches!(err, AjisaiError::VectorLengthMismatch { len1: 2, len2: 3 }));
    assert_eq!(interp.stack.len(), 2);
    assert_eq!(ints_of(&interp.stack[0]), vec![1, 2]);
    assert_eq!(ints_of(&interp.stack[1]), vec![1, 2, 3]);
}

#[test]
fn a_nil_lane_passes_through_min() {
    let mut interp = interp_with(vec![vector(vec![num(4), Value::nil()]), num(2)]);
    op_min(&mut interp).unwrap();
    let lanes = interp.stack[0].as_vector().unwrap();
    assert_eq!(lanes[0].as_i64(), Some(2));
    assert!(lanes[1].is_nil());
}

#[test]
fn a_non_number_is_refused() {
    let mut interp = interp_with(vec![Value::from_string("a"), num(1)]);
    let err = op_min(&mut interp).unwrap_err();
    assert!(matches!(err, AjisaiError::TypeError { .. }));
    assert_eq!(interp.stack.len(), 2);

    let mut n = interp_with(vec![Value::from_string("a")]);
    assert!(matches!(op_neg(&mut n).unwrap_err(), AjisaiError::TypeError { .. }));
    assert_eq!(n.stack.len(), 1);
}

#[test]
fn min_underflows_with_one_operand() {
    let mut interp = interp_with(vec![num(1)]);
    assert!(matches!(op_min(&mut interp).unwrap_err(), AjisaiError::StackUnderflow));
    assert_eq!(interp.stack.len(), 1);
}

#[test]
fn neg_and_abs_lift_over_vectors() {
    let mut n = interp_with(vec![vector(vec![num(-1), num(2)])]);
    op_neg(&mut n).unwrap();
    assert_eq!(ints_of(&n.stack[0]), vec![1, -2]);

    let mut a = interp_with(vec![vector(vec![num(-1), num(2), num(0)])]);
    op_abs(&mut a).unwrap();
    assert_eq!(ints_of(&a.stack[0]), vec![1, 2, 0]);
    assert_eq!(a.stack[0].hint, Interpretation::RawNumber);
}

#[test]
fn neg_of_a_fraction_and_abs_of_a_negative_fraction() {
    let mut n = interp_with(vec![frac(3, 4)]);
    op_neg(&mut n).unwrap();
    let f = n.stack[0].as_scalar().unwrap();
    assert_eq!((f.numerator(), f.denominator()), (-3, 4));

    let mut a = interp_with(vec![frac(-5, 3)]);
    op_abs(&mut a).unwrap();
    let g = a.stack[0].as_scalar().unwrap();
    assert_eq!((g.numerator(), g.denominator()), (5, 3));
}

#[test]
fn nil_passes_through_abs() {
    let mut a = interp_with(vec![Value::nil()]);
    op_abs(&mut a).unwrap();
    assert!(a.stack[0].is_nil());
}

#[test]
fn keep_mode_leaves_the_operands_below_the_answer() {
    let mut interp = interp_with(vec![num(3), num(9)]);
    interp.consumption_mode = ConsumptionMode::Keep;
    op_max(&mut interp).unwrap();
    assert_eq!(interp.stack.len(), 3);
    assert_eq!(interp.stack[2].as_i64(), Some(9));
}
