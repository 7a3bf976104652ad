use ajisai::error::AjisaiError;
use ajisai::record_literal::record_from_literal_elements;
use ajisai::value::Value;

fn text(s: &str) -> Value {
    Value::from_string(s)
}

#[test]
fn a_literal_alternates_keys_and_values() {
    let rec = record_from_literal_elements(vec![text("a"), Value::from_int(1), text("b"), Value::from_int(2)]).unwrap();
    assert_eq!(rec.keys.len(), 2);
    assert_eq!(rec.keys[1].as_text(), Some("b"));
    assert_eq!(rec.values[0].as_i64(), Some(1));
    assert_eq!(rec.values[1].as_i64(), Some(2));
}

#[test]
fn an_odd_element_count_is_a_length_mismatch() {
    let e = record_from_literal_elements(vec![text("a"), Value::from_int(1), text("b")]).unwrap_err();
    assert!(matches!(e, AjisaiError::VectorLengthMismatch { len1: 2, len2: 1 }));
}

#[test]
fn a_repeated_key_is_a_duplicate_key() {
    let e = record_from_literal_elements(vec![Value::from_int(1), text("x"), Value::from_int(1), text("y")]).unwrap_err();
    match e {
        AjisaiError::Declared { condition, detail } => {
            assert_eq!(condition, "duplicateKey");
            assert_eq!(detail, "a Record literal: the key at position 1 repeats the key at position 0; a Record holds each key once");
        }
        other => panic!("unexpected {:?}", other),
    }
    assert!(record_from_literal_elements(Vec::new()).unwrap().keys.is_empty());
}
