use ajisai::interpreter::Interpreter;
use ajisai::quantized_block::{
    DataMovementClass, QuantizedArity, QuantizedPurity, VtuBackendCandidate, VtuHint,
    VtuSuitability,
};
use ajisai::redundancy::{
    select_degradation_policy, select_deterministic_route, DegradationPolicy,
    DeterministicExecutionRoute, FailureHistory, RedundancyBudget, RedundancyCheckpoint,
};
use ajisai::value::{values_equal, Value};

fn vtu_hint(suitability: VtuSuitability) -> VtuHint {
    VtuHint {
        suitability,
        backend_candidates: vec![VtuBackendCandidate::DenseTensorLoop],
        data_movement: DataMovementClass::Low,
        reason: "test",
    }
}

#[test]
fn test_budget_cooldown_prevents_quantized_attempt() {
    let budget = RedundancyBudget {
        cooldown_epochs: 5,
        ..Default::default()
    };
    let mut history = FailureHistory::default();
    history.record_quantized_failure(10);
    assert!(history.quantized_is_cooling_down(12, &budget));
    assert!(!history.quantized_is_cooling_down(15, &budget));
}

#[test]
fn test_side_effecting_word_uses_plain_only() {
    let policy = select_degradation_policy(
        QuantizedArity::Fixed(1),
        QuantizedArity::Fixed(1),
        QuantizedPurity::SideEffecting,
    );
    assert_eq!(policy, DegradationPolicy::PlainOnly);
}

#[test]
fn test_variable_arity_block_skips_quantized() {
    let policy_var = select_degradation_policy(
        QuantizedArity::Variable,
        QuantizedArity::Fixed(1),
        QuantizedPurity::Pure,
    );
    assert_eq!(policy_var, DegradationPolicy::TwoStage);
    let policy_var_out = select_degradation_policy(
        QuantizedArity::Fixed(1),
        QuantizedArity::Variable,
        QuantizedPurity::Pure,
    );
    assert_eq!(policy_var_out, DegradationPolicy::TwoStage);
    let policy_pure = select_degradation_policy(
        QuantizedArity::Fixed(1),
        QuantizedArity::Fixed(1),
        QuantizedPurity::Pure,
    );
    assert_eq!(policy_pure, DegradationPolicy::ThreeStage);
    let policy_unknown = select_degradation_policy(
        QuantizedArity::Fixed(2),
        QuantizedArity::Fixed(1),
        QuantizedPurity::Unknown,
    );
    assert_eq!(policy_unknown, DegradationPolicy::TwoStage);
}

#[test]
fn deterministic_route_uses_simd_soa_for_strong_candidate_only() {
    assert_eq!(
        select_deterministic_route(&vtu_hint(VtuSuitability::StrongCandidate)),
        DeterministicExecutionRoute::SimdSoa
    );
    assert_eq!(
        select_deterministic_route(&vtu_hint(VtuSuitability::WeakCandidate)),
        DeterministicExecutionRoute::Plain
    );
    assert_eq!(
        select_deterministic_route(&vtu_hint(VtuSuitability::NotSuitable)),
        DeterministicExecutionRoute::Plain
    );
}

#[test]
fn auto_degrade_at_threshold() {
    let budget = RedundancyBudget {
        auto_degrade_threshold: 3,
        ..Default::default()
    };
    let mut history = FailureHistory::default();
    history.quantized_failures = 2;
    assert!(!history.should_auto_degrade(&budget));
    history.quantized_failures = 3;
    assert!(history.should_auto_degrade(&budget));
}

#[test]
fn cooldown_is_off_before_any_failure() {
    let history = FailureHistory::default();
    assert!(!history.quantized_is_cooling_down(1, &RedundancyBudget::default()));
    let mut h = FailureHistory::default();
    h.record_compiled_failure();
    assert_eq!(h.compiled_failures, 1);
    assert_eq!(h.quantized_failures, 0);
}

#[test]
fn checkpoint_restores_stack_without_failure_history() {
    let mut interp = Interpreter::new();
    interp.stack.push(Value::from_vector(vec![
        Value::from_int(10),
        Value::from_int(20),
        Value::from_int(30),
    ]));
    let checkpoint = RedundancyCheckpoint::capture(&interp);
    interp.stack.push(Value::from_int(999));
    assert_eq!(interp.stack.len(), 2);
    checkpoint.restore(&mut interp);
    assert_eq!(interp.stack.len(), 1);
    let expected = Value::from_vector(vec![
        Value::from_int(10),
        Value::from_int(20),
        Value::from_int(30),
    ]);
    assert!(values_equal(&interp.stack[0], &expected));
    assert!(interp.runtime_metrics.redundancy_restore_count >= 1);
}

#[test]
fn checkpoint_restores_after_clear() {
    let mut interp = Interpreter::new();
    interp.stack.push(Value::from_int(1));
    interp.stack.push(Value::from_int(2));
    let checkpoint = RedundancyCheckpoint::capture(&interp);
    interp.stack.clear();
    checkpoint.restore(&mut interp);
    assert_eq!(interp.stack.len(), 2);
    assert_eq!(interp.stack[1].as_i64(), Some(2));
}
