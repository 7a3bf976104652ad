use ajisai::interpreter::Interpreter;
use ajisai::plan::{CompiledLine, CompiledOp, CompiledPlan};
use ajisai::quantized_block::{
    analyze_compiled_plan, is_quantizable_block, quantize_compiled_block, KernelKind,
    QuantizedArity, QuantizedPurity, VtuBackendCandidate, VtuSuitability,
};
use ajisai::quantized_block_shape;
use ajisai::value::{Token, Value};

fn num(s: &str) -> Token {
    Token::Number(s.into())
}

fn sym(s: &str) -> Token {
    Token::Symbol(s.into())
}

fn plan(ops: Vec<CompiledOp>) -> CompiledPlan {
    CompiledPlan { lines: vec![CompiledLine { ops }] }
}

#[test]
fn quantized_block_tests_empty_block_is_not_quantizable() {
    assert!(!is_quantizable_block(&[]));
}

#[test]
fn quantized_block_tests_linebreak_makes_block_non_quantizable() {
    let tokens = vec![num("1"), Token::LineBreak, sym("+")];
    assert!(!is_quantizable_block(&tokens));
}

#[test]
fn quantized_block_shape_tests_empty_block_is_not_quantizable() {
    assert!(!quantized_block_shape::is_quantizable_block(&[]));
}

#[test]
fn quantized_block_shape_tests_linebreak_makes_block_non_quantizable() {
    let tokens = vec![num("1"), Token::LineBreak, sym("+")];
    assert!(!quantized_block_shape::is_quantizable_block(&tokens));
}

#[test]
fn safemode_token_makes_block_non_quantizable() {
    let tokens = vec![Token::SafeMode, sym("+")];
    assert!(!quantized_block_shape::is_quantizable_block(&tokens));
}

#[test]
fn vtu_default_metrics_are_zero() {
    let interp = Interpreter::new();
    let m = interp.runtime_metrics();
    assert_eq!(m.vtu_tensor_flatten_count, 0);
    assert_eq!(m.vtu_tensor_flattened_elements, 0);
    assert_eq!(m.vtu_tensor_rebuild_count, 0);
    assert_eq!(m.vtu_tensor_rebuilt_elements, 0);
    assert_eq!(m.vtu_broadcast_count, 0);
    assert_eq!(m.vtu_unary_flat_count, 0);
    assert_eq!(m.vtu_allocated_elements, 0);
    assert_eq!(m.vtu_same_shape_elementwise_count, 0);
    assert_eq!(m.vtu_projected_broadcast_count, 0);
    assert_eq!(m.vtu_simd_kernel_use_count, 0);
    assert_eq!(m.vtu_sparse_candidate_count, 0);
    assert_eq!(m.vtu_sparse_candidate_elements, 0);
    assert_eq!(m.vtu_sparse_candidate_nonzero_elements, 0);
    assert_eq!(m.vtu_sparse_skippable_zero_elements, 0);
    assert_eq!(m.vtu_candidate_block_count, 0);
    assert_eq!(m.vtu_rejected_block_count, 0);
    assert_eq!(m.vtu_fusion_candidate_count, 0);
    assert_eq!(m.vtu_bulk_kernel_use_count, 0);
}

#[test]
fn impure_builtin_makes_block_non_quantizable() {
    assert!(!is_quantizable_block(&[num("1"), sym("print")]));
    assert!(is_quantizable_block(&[num("1"), sym("+")]));
}

#[test]
fn arity_binary_add_consumes_two_produces_one() {
    let p = plan(vec![CompiledOp::CallBuiltin("+".into())]);
    let (input, output, purity, deps) = analyze_compiled_plan(&p);
    assert_eq!(input, QuantizedArity::Fixed(2));
    assert_eq!(output, QuantizedArity::Fixed(1));
    assert_eq!(purity, QuantizedPurity::Pure);
    assert!(deps.is_empty());
}

#[test]
fn arity_literal_then_add_consumes_one() {
    let p = plan(vec![
        CompiledOp::PushLiteral(Value::from_int(1)),
        CompiledOp::CallBuiltin("+".into()),
    ]);
    let (input, output, _, _) = analyze_compiled_plan(&p);
    assert_eq!(input, QuantizedArity::Fixed(1));
    assert_eq!(output, QuantizedArity::Fixed(1));
}

#[test]
fn user_word_freezes_arity_and_records_dependency() {
    let p = plan(vec![
        CompiledOp::CallBuiltin("+".into()),
        CompiledOp::CallUserWord("INC".into()),
        CompiledOp::CallQualifiedWord { namespace: "ALGO".into(), word: "SORT".into() },
    ]);
    let (input, output, purity, deps) = analyze_compiled_plan(&p);
    assert_eq!(input, QuantizedArity::Fixed(2));
    assert_eq!(output, QuantizedArity::Variable);
    assert_eq!(purity, QuantizedPurity::SideEffecting);
    assert_eq!(deps, vec!["INC".to_string(), "ALGO@SORT".to_string()]);
}

#[test]
fn map_unary_block_is_a_strong_vtu_candidate() {
    let mut interp = Interpreter::new();
    let tokens = vec![Token::VectorStart, num("1"), Token::VectorEnd, sym("+")];
    let p = plan(vec![
        CompiledOp::PushVectorLiteral(vec![Value::from_int(1)]),
        CompiledOp::CallBuiltin("+".into()),
    ]);
    let qb = quantize_compiled_block(&tokens, p, &mut interp).unwrap();
    assert_eq!(qb.kernel_kind, KernelKind::MapUnaryPure);
    assert_eq!(qb.guard_signature.kernel_kind, KernelKind::MapUnaryPure);
    assert_eq!(qb.vtu_hint.suitability, VtuSuitability::StrongCandidate);
    assert!(qb.vtu_hint.backend_candidates.contains(&VtuBackendCandidate::SparseTensorLoop));
    assert_eq!(
        qb.fast_path_id.as_deref(),
        Some("kernel::MapUnaryPure::in=Fixed(1)::out=Fixed(1)")
    );
    assert_eq!(interp.runtime_metrics().vtu_candidate_block_count, 1);
    assert_eq!(interp.runtime_metrics().quantized_block_build_count, 1);
    assert_eq!(qb.lowered_kernel_ir.len(), 2);
    assert!(matches!(qb.lowered_kernel_ir[1], CompiledOp::CallBuiltin(ref n) if n == "+"));
}

#[test]
fn not_block_is_a_predicate_kernel() {
    let mut interp = Interpreter::new();
    let tokens = vec![sym("NOT")];
    let p = plan(vec![CompiledOp::CallBuiltin("NOT".into())]);
    let qb = quantize_compiled_block(&tokens, p, &mut interp).unwrap();
    assert_eq!(qb.kernel_kind, KernelKind::PredicateUnaryPure);
    assert_eq!(qb.input_arity, QuantizedArity::Fixed(1));
    assert!(qb.eligible_for_fusion);
}

#[test]
fn unknown_purity_never_surfaces_as_a_vtu_candidate() {
    for kind in [KernelKind::MapUnaryPure, KernelKind::PredicateUnaryPure, KernelKind::FoldBinaryPure] {
        for purity in [QuantizedPurity::Unknown, QuantizedPurity::SideEffecting] {
            let hint = ajisai::quantized_block::infer_vtu_hint(kind, purity);
            assert_eq!(hint.suitability, VtuSuitability::NotSuitable);
            assert_eq!(hint.backend_candidates, vec![VtuBackendCandidate::FallbackInterpreter]);
        }
    }
    assert_eq!(ajisai::quantized_block::infer_vtu_hint(KernelKind::MapUnaryPure, QuantizedPurity::Pure).suitability, VtuSuitability::StrongCandidate);
}

#[test]
fn a_rejected_block_counts_as_rejected() {
    let mut interp = Interpreter::new();
    let tokens = vec![sym("FOO")];
    let p = plan(vec![CompiledOp::CallUserWord("FOO".into())]);
    let before = interp.runtime_metrics().vtu_rejected_block_count;
    let qb = quantize_compiled_block(&tokens, p, &mut interp).unwrap();
    assert_eq!(qb.vtu_hint.suitability, VtuSuitability::NotSuitable);
    assert_eq!(interp.runtime_metrics().vtu_rejected_block_count, before + 1);
    assert_eq!(interp.runtime_metrics().vtu_candidate_block_count, 0);
}
