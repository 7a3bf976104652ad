use ajisai::kleene::Ternary::{False, Nil, True, Unknown};
use ajisai::kleene::{into_value_with_diagnosis, involution_k3, join_k3, meet_k3, Ternary};
use ajisai::value::{Interpretation, Value};

fn t() -> Value {
    Value::from_bool(true).with_role(Interpretation::TruthValue)
}
fn f() -> Value {
    Value::from_bool(false).with_role(Interpretation::TruthValue)
}
fn u() -> Value {
    Value::unknown()
}
fn n() -> Value {
    Value::nil()
}

fn u_with_prefix(k: usize) -> Value {
    Value::unknown_with_agreed_prefix(Some("COMPARE-WITHIN"), k)
}

fn agreed_prefix_of(v: &Value) -> Option<usize> {
    v.nil_diagnosis().and_then(|d| d.agreed_prefix)
}

#[test]
fn classify_separates_unknown_from_nil() {
    assert_eq!(Ternary::classify(&t()), Ternary::True);
    assert_eq!(Ternary::classify(&f()), Ternary::False);
    assert_eq!(Ternary::classify(&u()), Ternary::Unknown);
    assert_eq!(Ternary::classify(&n()), Ternary::Nil);
}

#[test]
fn k3_and_truth_table() {
    assert_eq!(meet_k3(True, True), True);
    assert_eq!(meet_k3(True, Unknown), Unknown);
    assert_eq!(meet_k3(True, False), False);
    assert_eq!(meet_k3(Unknown, True), Unknown);
    assert_eq!(meet_k3(Unknown, Unknown), Unknown);
    assert_eq!(meet_k3(Unknown, False), False);
    assert_eq!(meet_k3(False, True), False);
    assert_eq!(meet_k3(False, Unknown), False);
    assert_eq!(meet_k3(False, False), False);
}

#[test]
fn k3_or_truth_table() {
    assert_eq!(join_k3(False, False), False);
    assert_eq!(join_k3(False, Unknown), Unknown);
    assert_eq!(join_k3(False, True), True);
    assert_eq!(join_k3(Unknown, False), Unknown);
    assert_eq!(join_k3(Unknown, Unknown), Unknown);
    assert_eq!(join_k3(Unknown, True), True);
    assert_eq!(join_k3(True, False), True);
    assert_eq!(join_k3(True, Unknown), True);
    assert_eq!(join_k3(True, True), True);
}

#[test]
fn k3_not_truth_table() {
    assert_eq!(involution_k3(True), False);
    assert_eq!(involution_k3(Unknown), Unknown);
    assert_eq!(involution_k3(False), True);
}

#[test]
fn nil_takes_priority_over_unknown() {
    assert_eq!(meet_k3(Nil, Unknown), Nil);
    assert_eq!(meet_k3(Unknown, Nil), Nil);
    assert_eq!(join_k3(Nil, Unknown), Nil);
    assert_eq!(join_k3(Unknown, Nil), Nil);
    assert_eq!(meet_k3(False, Nil), False);
    assert_eq!(join_k3(True, Nil), True);
}

#[test]
fn nil_semantics_preserved() {
    assert_eq!(meet_k3(Nil, True), Nil);
    assert_eq!(meet_k3(Nil, False), False);
    assert_eq!(meet_k3(Nil, Nil), Nil);
    assert_eq!(join_k3(Nil, False), Nil);
    assert_eq!(join_k3(Nil, True), True);
    assert_eq!(join_k3(Nil, Nil), Nil);
    assert_eq!(involution_k3(Nil), Nil);
}

#[test]
fn into_value_roundtrips_truth_value() {
    assert!(Ternary::Unknown.into_value().is_unknown());
    assert!(Ternary::Nil.into_value().is_nil() && !Ternary::Nil.into_value().is_unknown());
    assert!(Ternary::True.into_value().is_truth_value());
    assert!(Ternary::False.into_value().is_truth_value());
}

#[test]
fn not_preserves_agreed_prefix() {
    let input = u_with_prefix(7);
    let result = into_value_with_diagnosis(involution_k3(Ternary::classify(&input)), &[&input]);
    assert!(result.is_unknown());
    assert_eq!(result.truth_value(), Some("unknown"));
    assert_eq!(agreed_prefix_of(&result), Some(7));
}

#[test]
fn and_unknown_true_preserves_agreed_prefix() {
    let a = u_with_prefix(3);
    let b = t();
    let result = into_value_with_diagnosis(
        meet_k3(Ternary::classify(&a), Ternary::classify(&b)),
        &[&a, &b],
    );
    assert!(result.is_unknown());
    assert_eq!(agreed_prefix_of(&result), Some(3));
}

#[test]
fn and_two_unknowns_keeps_left_diagnosis() {
    let a = u_with_prefix(11);
    let b = u_with_prefix(99);
    let result = into_value_with_diagnosis(
        meet_k3(Ternary::classify(&a), Ternary::classify(&b)),
        &[&a, &b],
    );
    assert!(result.is_unknown());
    assert_eq!(agreed_prefix_of(&result), Some(11));
}

#[test]
fn or_two_unknowns_keeps_left_diagnosis() {
    let a = u_with_prefix(5);
    let b = u_with_prefix(8);
    let result = into_value_with_diagnosis(
        join_k3(Ternary::classify(&a), Ternary::classify(&b)),
        &[&a, &b],
    );
    assert!(result.is_unknown());
    assert_eq!(agreed_prefix_of(&result), Some(5));
}

#[test]
fn bare_unknowns_stay_bare() {
    let a = u();
    let b = u();
    let result = into_value_with_diagnosis(
        meet_k3(Ternary::classify(&a), Ternary::classify(&b)),
        &[&a, &b],
    );
    assert!(result.is_unknown());
    assert_eq!(agreed_prefix_of(&result), None);
}

#[test]
fn definite_and_nil_results_unchanged() {
    let u_k = u_with_prefix(4);
    let ff = f();
    let result = into_value_with_diagnosis(
        meet_k3(Ternary::classify(&u_k), Ternary::classify(&ff)),
        &[&u_k, &ff],
    );
    assert_eq!(result.truth_value(), Some("false"));
    assert_eq!(agreed_prefix_of(&result), None);
    let nn = n();
    let result = into_value_with_diagnosis(
        meet_k3(Ternary::classify(&u_k), Ternary::classify(&nn)),
        &[&u_k, &nn],
    );
    assert!(result.is_nil() && !result.is_unknown());
}

#[test]
fn k3_laws_hold_on_every_cell() {
    let all = [True, False, Unknown, Nil];
    for a in all {
        assert_eq!(involution_k3(involution_k3(a)), a);
        for b in all {
            assert_eq!(meet_k3(a, b), meet_k3(b, a));
            assert_eq!(join_k3(a, b), join_k3(b, a));
            assert_eq!(involution_k3(meet_k3(a, b)), join_k3(involution_k3(a), involution_k3(b)));
        }
    }
}
