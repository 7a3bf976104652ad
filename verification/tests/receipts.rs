use ajisai::interpreter::Interpreter;
use ajisai::receipt::{HostCapability, ReceiptRecorder};

#[test]
fn recording_is_off_by_default_and_records_nothing() {
    let mut r = ReceiptRecorder::new();
    assert!(!r.is_recording());
    r.record_executed("DEMO@INC");
    r.record_required(HostCapability::Clock);
    assert!(r.executed_words().is_empty());
    assert!(r.required_capabilities().is_empty());
}

#[test]
fn repeated_executions_collapse_to_one_entry_in_name_order() {
    let mut r = ReceiptRecorder::new();
    r.set_recording(true);
    r.record_executed("DEMO@ZED");
    r.record_executed("DEMO@ALPHA");
    r.record_executed("DEMO@ZED");
    r.record_executed("DEMO@ZED");
    let words = r.executed_words();
    assert_eq!(words.len(), 2);
    assert_eq!(words[0].0, "DEMO@ALPHA");
    assert_eq!(words[0].1.first_seen_order, 1);
    assert_eq!(words[0].1.call_count, 1);
    assert_eq!(words[1].0, "DEMO@ZED");
    assert_eq!(words[1].1.first_seen_order, 0);
    assert_eq!(words[1].1.call_count, 3);
}

#[test]
fn capabilities_are_listed_once_in_stable_order() {
    let mut r = ReceiptRecorder::new();
    r.set_recording(true);
    r.record_required(HostCapability::Network);
    r.record_required(HostCapability::ConsoleWrite);
    r.record_required(HostCapability::Network);
    assert_eq!(
        r.required_capabilities(),
        &vec![HostCapability::ConsoleWrite, HostCapability::Network]
    );
}

#[test]
fn clear_keeps_the_recording_flag() {
    let mut r = ReceiptRecorder::new();
    r.set_recording(true);
    r.record_executed("A");
    r.clear();
    assert!(r.is_recording());
    assert!(r.executed_words().is_empty());
    r.record_executed("B");
    assert_eq!(r.executed_words()[0].1.first_seen_order, 0);
}

#[test]
fn interpreter_reports_granted_capabilities_in_order() {
    let mut interp = Interpreter::new();
    interp.granted_capabilities = vec![HostCapability::Serial, HostCapability::Clock];
    assert_eq!(
        interp.granted_host_capabilities(),
        vec![HostCapability::Clock, HostCapability::Serial]
    );
    interp.set_receipt_recording(true);
    assert!(interp.receipt_recorder().is_recording());
    assert_eq!(interp.execution_step_count(), 0);
    assert_eq!(interp.max_execution_steps(), ajisai::interpreter::DEFAULT_MAX_EXECUTION_STEPS);
}
