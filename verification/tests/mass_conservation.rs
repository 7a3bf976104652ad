use ajisai::mass_conservation::validate_mass_conservation;
use ajisai::plan::{CompiledLine, CompiledOp, CompiledPlan};
use ajisai::value::Value;

fn plan(ops: Vec<CompiledOp>) -> CompiledPlan {
    CompiledPlan { lines: vec![CompiledLine { ops }] }
}

#[test]
fn literal_then_add_dips_below_empty() {
    let r = validate_mass_conservation(&plan(vec![
        CompiledOp::PushLiteral(Value::from_int(1)),
        CompiledOp::CallBuiltin("+".into()),
    ]));
    assert_eq!((r.net_mass, r.min_depth, r.all_known), (0, -1, true));
    assert!(r.over_consumes_from_empty());
}

#[test]
fn a_self_contained_flow_conserves() {
    let r = validate_mass_conservation(&plan(vec![
        CompiledOp::PushLiteral(Value::from_int(1)),
        CompiledOp::PushLiteral(Value::from_int(2)),
        CompiledOp::CallBuiltin("+".into()),
    ]));
    assert_eq!((r.net_mass, r.min_depth, r.all_known), (1, 0, true));
    assert!(!r.over_consumes_from_empty());
}

#[test]
fn keep_retains_the_operands() {
    let r = validate_mass_conservation(&plan(vec![
        CompiledOp::PushLiteral(Value::from_int(1)),
        CompiledOp::PushLiteral(Value::from_int(2)),
        CompiledOp::SetConsumptionKeep,
        CompiledOp::CallBuiltin("+".into()),
        CompiledOp::CallBuiltin("NOT".into()),
    ]));
    assert_eq!((r.net_mass, r.min_depth, r.all_known), (3, 0, true));
}

#[test]
fn the_analysis_stops_at_an_unpinned_word() {
    let r = validate_mass_conservation(&plan(vec![
        CompiledOp::CallBuiltin("NOT".into()),
        CompiledOp::CallUserWord("INC".into()),
        CompiledOp::CallBuiltin("+".into()),
    ]));
    assert_eq!((r.net_mass, r.min_depth, r.all_known), (0, -1, false));
    let stack = validate_mass_conservation(&plan(vec![
        CompiledOp::SetTargetModeStack,
        CompiledOp::CallBuiltin("+".into()),
    ]));
    assert!(!stack.all_known);
    let unknown = validate_mass_conservation(&plan(vec![CompiledOp::CallBuiltin("MAP".into())]));
    assert_eq!((unknown.net_mass, unknown.min_depth, unknown.all_known), (0, 0, false));
}

#[test]
fn lines_are_analysed_in_order() {
    let p = CompiledPlan {
        lines: vec![
            CompiledLine { ops: vec![CompiledOp::PushLiteral(Value::from_int(1))] },
            CompiledLine { ops: vec![CompiledOp::LineBreak, CompiledOp::CallBuiltin("-".into())] },
        ],
    };
    let r = validate_mass_conservation(&p);
    assert_eq!((r.net_mass, r.min_depth, r.all_known), (0, -1, true));
}
