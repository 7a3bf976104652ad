use ajisai::error::AjisaiError;
use ajisai::interpreter::{ConsumptionMode, Interpreter, OperationTargetMode};
use ajisai::random::{op_csprng, parse_csprng_args, uniform_below, DEFAULT_DENOMINATOR};
use ajisai::value::Value;

fn num(n: i64) -> Value {
    Value::from_int(n)
}

fn single(n: i64) -> Value {
    Value::from_vector(vec![num(n)])
}

fn interp_with(values: Vec<Value>) -> Interpreter {
    let mut interp = Interpreter::new();
    for v in values {
        interp.stack.push(v);
    }
    interp
}

#[test]
fn uniform_below_reads_little_endian_bytes() {
    assert_eq!(uniform_below(&vec![1, 1], 1000), 257);
    assert_eq!(uniform_below(&vec![0, 0, 1], 1000), 536);
    assert_eq!(uniform_below(&vec![], 7), 0);
    assert_eq!(uniform_below(&vec![255; 16], 1), 0);
}

#[test]
fn a_die_roll_is_a_sixth() {
    let mut interp = interp_with(vec![single(6), single(1)]);
    op_csprng(&mut interp).unwrap();
    assert_eq!(interp.stack.len(), 1);
    let draws = interp.stack[0].as_vector().unwrap();
    assert_eq!(draws.len(), 1);
    let f = draws[0].as_scalar().unwrap();
    assert!(f.numerator() >= 0);
    assert!(f.numerator() * 6 < 6 * f.denominator());
    assert_eq!(6 % f.denominator(), 0);
}

#[test]
fn a_count_alone_uses_the_default_denominator() {
    let mut interp = interp_with(vec![single(5)]);
    op_csprng(&mut interp).unwrap();
    assert_eq!(interp.stack.len(), 1);
    let draws = interp.stack[0].as_vector().unwrap();
    assert_eq!(draws.len(), 5);
    for d in draws {
        let f = d.as_scalar().unwrap();
        assert!(f.numerator() >= 0 && f.numerator() < f.denominator());
        assert_eq!(DEFAULT_DENOMINATOR % f.denominator(), 0);
    }
}

#[test]
fn an_empty_stack_draws_one_value() {
    let mut interp = Interpreter::new();
    op_csprng(&mut interp).unwrap();
    assert_eq!(interp.stack[0].as_vector().unwrap().len(), 1);
}

#[test]
fn parse_leaves_a_non_count_on_the_stack() {
    let mut stack = vec![Value::from_string("x")];
    assert_eq!(parse_csprng_args(&mut stack, false), (DEFAULT_DENOMINATOR, 1));
    assert_eq!(stack.len(), 1);

    let mut two = vec![single(100), single(3)];
    assert_eq!(parse_csprng_args(&mut two, false), (100, 3));
    assert!(two.is_empty());

    let mut kept = vec![single(100), single(3)];
    assert_eq!(parse_csprng_args(&mut kept, true), (100, 3));
    assert_eq!(kept.len(), 2);
}

#[test]
fn keep_mode_leaves_the_arguments() {
    let mut interp = interp_with(vec![single(100), single(3)]);
    interp.consumption_mode = ConsumptionMode::Keep;
    op_csprng(&mut interp).unwrap();
    assert_eq!(interp.stack.len(), 3);
    assert_eq!(interp.stack[2].as_vector().unwrap().len(), 3);
}

#[test]
fn the_stack_target_mode_is_refused() {
    let mut interp = interp_with(vec![single(6)]);
    interp.operation_target_mode = OperationTargetMode::Stack;
    match op_csprng(&mut interp).unwrap_err() {
        AjisaiError::ModeUnsupported { word, mode } => {
            assert_eq!(word, "CSPRNG");
            assert_eq!(mode, "Stack");
        }
        other => panic!("unexpected {:?}", other),
    }
    assert_eq!(interp.stack.len(), 1);
}
