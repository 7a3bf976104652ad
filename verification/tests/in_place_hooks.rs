use ajisai::flow::{check_in_place_candidate, FlowToken, InPlaceJudgment};
use ajisai::in_place;
use ajisai::rational::Fraction;
use ajisai::value::{Interpretation, Value, ValueData};
use std::rc::Rc;

fn scalar(n: i64) -> Value {
    Value::from_int(n)
}

fn fresh_flow(value: &Value) -> FlowToken {
    FlowToken::from_value(value)
}

fn shared_vector(children: &Rc<Vec<Value>>) -> Value {
    Value {
        data: ValueData::Vector(Rc::clone(children)),
        hint: Interpretation::Auto,
        absence: None,
    }
}

#[test]
fn test_no_flow_context_when_token_absent() {
    let v = scalar(42);
    assert_eq!(check_in_place_candidate(&v, None), InPlaceJudgment::NoFlowContext);
}

#[test]
fn test_no_flow_context_for_nil_value() {
    let v = Value::nil();
    assert_eq!(check_in_place_candidate(&v, None), InPlaceJudgment::NoFlowContext);
}

#[test]
fn test_safe_for_scalar_with_fresh_flow() {
    let v = scalar(7);
    let flow = fresh_flow(&v);
    assert_eq!(check_in_place_candidate(&v, Some(&flow)), InPlaceJudgment::Safe);
}

#[test]
fn test_safe_for_nil_with_fresh_flow() {
    let v = Value::nil();
    let flow = fresh_flow(&v);
    assert_eq!(check_in_place_candidate(&v, Some(&flow)), InPlaceJudgment::Safe);
}

#[test]
fn flow_test_safe_for_uniquely_owned_vector() {
    let v = Value::from_children(vec![scalar(1), scalar(2), scalar(3)]);
    let flow = fresh_flow(&v);
    assert_eq!(check_in_place_candidate(&v, Some(&flow)), InPlaceJudgment::Safe);
}

#[test]
fn test_partially_consumed_when_remaining_less_than_total() {
    let v = scalar(10);
    let mut flow = fresh_flow(&v);
    let half = Fraction::new(5, 1).unwrap();
    let (_, updated) = flow.consume(&half).expect("consume should succeed");
    flow = updated;
    assert_eq!(check_in_place_candidate(&v, Some(&flow)), InPlaceJudgment::PartiallyConsumed);
}

#[test]
fn test_partially_consumed_when_parent_flow_set() {
    let v = scalar(4);
    let mut flow = fresh_flow(&v);
    flow.parent_flow_id = Some(99);
    assert_eq!(check_in_place_candidate(&v, Some(&flow)), InPlaceJudgment::PartiallyConsumed);
}

#[test]
fn test_partially_consumed_when_child_flows_present() {
    let v = scalar(4);
    let mut flow = fresh_flow(&v);
    flow.child_flow_ids.push(1);
    assert_eq!(check_in_place_candidate(&v, Some(&flow)), InPlaceJudgment::PartiallyConsumed);
}

#[test]
fn test_partially_consumed_when_mass_ratio_not_unit() {
    let v = scalar(4);
    let mut flow = fresh_flow(&v);
    flow.mass_ratio = (1, 2);
    assert_eq!(check_in_place_candidate(&v, Some(&flow)), InPlaceJudgment::PartiallyConsumed);
}

#[test]
fn flow_test_aliased_when_rc_shared() {
    let children = Rc::new(vec![scalar(1), scalar(2)]);
    let v1 = shared_vector(&children);
    let _v2 = shared_vector(&children);
    let flow = fresh_flow(&v1);
    assert_eq!(check_in_place_candidate(&v1, Some(&flow)), InPlaceJudgment::Aliased);
}

#[test]
fn flow_test_safe_after_alias_dropped() {
    let children = Rc::new(vec![scalar(1), scalar(2)]);
    let v1 = shared_vector(&children);
    drop(children);
    let flow = fresh_flow(&v1);
    assert_eq!(check_in_place_candidate(&v1, Some(&flow)), InPlaceJudgment::Safe);
}

#[test]
fn test_hook_consistent_with_can_update_in_place() {
    let v = scalar(3);
    let flow = fresh_flow(&v);
    let can = flow.can_update_in_place(&v);
    let judgment = check_in_place_candidate(&v, Some(&flow));
    assert_eq!(can, judgment == InPlaceJudgment::Safe);
}

#[test]
fn consuming_more_than_remains_is_refused() {
    let v = scalar(3);
    let flow = fresh_flow(&v);
    assert!(flow.consume(&Fraction::new(4, 1).unwrap()).is_err());
    assert!(flow.consume(&Fraction::new(-1, 1).unwrap()).is_err());
    let (taken, rest) = flow.consume(&Fraction::new(1, 2).unwrap()).unwrap();
    assert_eq!((taken.numerator(), taken.denominator()), (1, 2));
    assert_eq!((rest.remaining.numerator(), rest.remaining.denominator()), (5, 2));
    assert_eq!((rest.total.numerator(), rest.total.denominator()), (3, 1));
}

#[test]
fn a_negative_scalar_carries_its_magnitude() {
    let flow = fresh_flow(&scalar(-6));
    assert_eq!((flow.total.numerator(), flow.total.denominator()), (6, 1));
    let vector = Value::from_children(vec![scalar(1), scalar(2), scalar(3)]);
    assert_eq!(fresh_flow(&vector).total.numerator(), 3);
}

#[test]
fn test_safe_for_scalar() {
    let v = scalar(7);
    assert_eq!(in_place::check_in_place_candidate(&v), in_place::InPlaceJudgment::Safe);
}

#[test]
fn test_safe_for_nil() {
    let v = Value::nil();
    assert_eq!(in_place::check_in_place_candidate(&v), in_place::InPlaceJudgment::Safe);
}

#[test]
fn optimization_hooks_test_safe_for_uniquely_owned_vector() {
    let v = Value::from_children(vec![scalar(1), scalar(2), scalar(3)]);
    assert_eq!(in_place::check_in_place_candidate(&v), in_place::InPlaceJudgment::Safe);
}

#[test]
fn optimization_hooks_test_aliased_when_rc_shared() {
    let children = Rc::new(vec![scalar(1), scalar(2)]);
    let v1 = shared_vector(&children);
    let _v2 = shared_vector(&children);
    assert_eq!(in_place::check_in_place_candidate(&v1), in_place::InPlaceJudgment::Aliased);
}

#[test]
fn optimization_hooks_test_safe_after_alias_dropped() {
    let children = Rc::new(vec![scalar(1), scalar(2)]);
    let v1 = shared_vector(&children);
    drop(children);
    assert_eq!(in_place::check_in_place_candidate(&v1), in_place::InPlaceJudgment::Safe);
}

#[test]
fn consume_reports_why_it_refuses() {
    let flow = fresh_flow(&scalar(3));
    match flow.consume(&Fraction::new(-1, 1).unwrap()) {
        Err(ajisai::error::AjisaiError::Message(m)) => assert_eq!(m, "a flow cannot take a negative amount"),
        other => panic!("unexpected {:?}", other.map(|_| ())),
    }
    match flow.consume(&Fraction::new(4, 1).unwrap()) {
        Err(ajisai::error::AjisaiError::Message(m)) => assert_eq!(m, "a flow cannot take more than remains"),
        other => panic!("unexpected {:?}", other.map(|_| ())),
    }
    let (_, rest) = flow.consume(&Fraction::new(3, 1).unwrap()).unwrap();
    assert_eq!((rest.remaining.numerator(), rest.remaining.denominator()), (0, 1));
}
