use ajisai::error::AjisaiError;
use ajisai::interpreter::Interpreter;
use ajisai::quotation::op_call;
use ajisai::value::{Token, Value};

#[test]
fn call_hands_back_the_tokens_of_a_code_block() {
    let body = vec![Token::Number("1".to_string()), Token::Symbol("ADD".to_string())];
    let mut interp = Interpreter::new();
    interp.stack.push(Value::from_int(5));
    interp.stack.push(Value::from_code_block(body.clone()));
    let tokens = op_call(&mut interp).unwrap();
    assert_eq!(tokens, body);
    assert_eq!(interp.stack.len(), 1);
    assert_eq!(interp.stack[0].as_i64(), Some(5));
}

#[test]
fn call_refuses_a_value_that_is_not_a_quotation() {
    let mut interp = Interpreter::new();
    interp.stack.push(Value::from_int(5));
    match op_call(&mut interp).unwrap_err() {
        AjisaiError::TypeError { expected, got } => {
            assert_eq!(expected, "quotation");
            assert_eq!(got, "other type");
        }
        other => panic!("unexpected {:?}", other),
    }
    assert!(interp.stack.is_empty());
}

#[test]
fn call_on_an_empty_stack_underflows() {
    let mut interp = Interpreter::new();
    assert!(matches!(op_call(&mut interp).unwrap_err(), AjisaiError::StackUnderflow));
}
