use ajisai::error::AjisaiError;
use ajisai::parallel::{
    chunk_plan, compute_bound_elementwise, compute_bound_map, elementwise_binary,
    elementwise_binary_checked, elementwise_scalar, elementwise_scalar_checked, parallel_dispatch_min,
    parallel_map, parallel_try_elementwise, region_bounds, run_parallel_binary,
    run_parallel_binary_checked, run_parallel_scalar, run_parallel_scalar_checked, ParallelOpClass,
    COMPUTE_BOUND_DISPATCH_MIN, PARALLEL_DISPATCH_MIN,
};
use ajisai::rational::Fraction;

fn seq_binary(a: &[i64], b: &[i64], op: fn(i64, i64) -> i64) -> Vec<i64> {
    a.iter().zip(b.iter()).map(|(&x, &y)| op(x, y)).collect()
}

fn lane_add(a: &[i64], b: &[i64]) -> Vec<i64> {
    seq_binary(a, b, |x, y| x + y)
}

#[test]
fn small_input_stays_sequential() {
    let a: Vec<i64> = (0..16).collect();
    let b: Vec<i64> = (0..16).map(|x| x * 2).collect();
    let (result, parallel) = elementwise_binary("+", &a, &b, |x, y| x + y, lane_add, 8);
    assert!(!parallel, "tiny input must stay sequential");
    assert_eq!(result, seq_binary(&a, &b, |x, y| x + y));
}

#[test]
fn impure_word_stays_sequential() {
    let n = PARALLEL_DISPATCH_MIN + 1;
    let a: Vec<i64> = (0..n as i64).collect();
    let b: Vec<i64> = (0..n as i64).collect();
    let (result, parallel) = elementwise_binary("PRINT", &a, &b, |x, y| x + y, lane_add, 8);
    assert!(!parallel, "an impure word must never fan out");
    assert_eq!(result.len(), n);
    let (pure, fanned) = elementwise_binary("+", &a, &b, |x, y| x + y, lane_add, 8);
    assert!(fanned, "a pure word past the floor fans out");
    assert_eq!(pure, result);
    let (_, single) = elementwise_binary("+", &a, &b, |x, y| x + y, lane_add, 1);
    assert!(!single, "one worker never fans out");
}

#[test]
fn tiny_input_below_worker_count_stays_sound() {
    for n in 0..12usize {
        for workers in 1..6usize {
            let a: Vec<i64> = (0..n as i64).collect();
            let b: Vec<i64> = (0..n as i64).map(|x| 3 * x).collect();
            assert_eq!(run_parallel_binary(&a, &b, |x, y| x - y, workers), seq_binary(&a, &b, |x, y| x - y));
        }
    }
}

#[test]
fn parallel_matches_sequential_bitwise() {
    for (n, workers) in [(0usize, 4usize), (1, 4), (5, 4), (17, 3), (100, 7), (1000, 16)] {
        let a: Vec<i64> = (0..n as i64).map(|x| x * 7 - 3).collect();
        let b: Vec<i64> = (0..n as i64).map(|x| 11 - x).collect();
        assert_eq!(run_parallel_binary(&a, &b, |x, y| x * y, workers), seq_binary(&a, &b, |x, y| x * y));
        let scaled: Vec<i64> = a.iter().map(|&x| x + 5).collect();
        assert_eq!(run_parallel_scalar(&a, 5, |x, s| x + s, workers), scaled);
    }
}

#[test]
fn checked_parallel_matches_sequential_when_no_overflow() {
    let a: Vec<i64> = (0..50).collect();
    let b: Vec<i64> = (0..50).map(|x| x + 1).collect();
    let r = run_parallel_binary_checked(&a, &b, |x, y| x.checked_add(y), 4).unwrap();
    assert_eq!(r, seq_binary(&a, &b, |x, y| x + y));
    let s = run_parallel_scalar_checked(&a, 2, |x, y| x.checked_mul(y), 3).unwrap();
    assert_eq!(s, a.iter().map(|x| x * 2).collect::<Vec<_>>());
}

#[test]
fn checked_parallel_detects_overflow_and_declines() {
    let a = vec![1, 2, i64::MAX, 4];
    let b = vec![1, 1, 1, 1];
    assert!(run_parallel_binary_checked(&a, &b, |x, y| x.checked_add(y), 2).is_none());
    assert!(run_parallel_scalar_checked(&a, 2, |x, y| x.checked_mul(y), 3).is_none());
    let (r, fired) = elementwise_binary_checked(
        "+",
        &a,
        &b,
        |x, y| x.checked_add(y),
        |a: &[i64], b: &[i64]| a.iter().zip(b).map(|(x, y)| x.checked_add(*y)).collect(),
        8,
    );
    assert!(r.is_none());
    assert!(!fired);
    let (s, fired) = elementwise_scalar_checked(
        "*",
        &[1, 2, 3],
        4,
        |x, y| x.checked_mul(y),
        |a: &[i64], s: i64| a.iter().map(|x| x.checked_mul(s)).collect(),
        8,
    );
    assert_eq!(s, Some(vec![4, 8, 12]));
    assert!(!fired);
    let (plain, fired) = elementwise_scalar("*", &[1, 2, 3], 4, |x, y| x * y, |a: &[i64], s: i64| a.iter().map(|x| x * s).collect(), 8);
    assert_eq!(plain, vec![4, 8, 12]);
    assert!(!fired);
}

#[test]
fn compute_bound_floor_is_below_bandwidth_floor() {
    assert!(parallel_dispatch_min(ParallelOpClass::ComputeBound) < parallel_dispatch_min(ParallelOpClass::BandwidthBound));
    assert_eq!(parallel_dispatch_min(ParallelOpClass::ComputeBound), COMPUTE_BOUND_DISPATCH_MIN);
    assert_eq!(parallel_dispatch_min(ParallelOpClass::BandwidthBound), PARALLEL_DISPATCH_MIN);
}

fn halves(i: usize) -> Result<Fraction, AjisaiError> {
    Ok(Fraction::new(i as i64, 2).unwrap())
}

#[test]
fn parallel_fraction_matches_sequential() {
    for (n, workers) in [(0usize, 4usize), (7, 3), (64, 5)] {
        let par = parallel_try_elementwise(n, halves, workers).unwrap();
        let seq: Vec<Fraction> = (0..n).map(|i| halves(i).unwrap()).collect();
        assert_eq!(par, seq);
    }
}

#[test]
fn parallel_fraction_surfaces_first_error_like_sequential() {
    let f = |i: usize| {
        if i == 5 || i == 9 {
            Err(AjisaiError::DivisionByZero)
        } else {
            Ok(Fraction::new(i as i64, 1).unwrap())
        }
    };
    assert!(matches!(parallel_try_elementwise(12, f, 4), Err(AjisaiError::DivisionByZero)));
    assert!(matches!(compute_bound_elementwise(12, f, 4), Err(AjisaiError::DivisionByZero)));
}

#[test]
fn compute_bound_gate_matches_sequential_below_and_above_floor() {
    for n in [10usize, COMPUTE_BOUND_DISPATCH_MIN + 3] {
        let r = compute_bound_elementwise(n, halves, 4).unwrap();
        assert_eq!(r.len(), n);
        assert_eq!(r[n - 1], halves(n - 1).unwrap());
    }
}

#[test]
fn parallel_map_exact_matches_sequential_across_chunk_sizes() {
    for (n, workers) in [(0usize, 3usize), (1, 3), (5, 4), (33, 8)] {
        let par = parallel_map(n, |i| i * i, workers);
        let seq: Vec<usize> = (0..n).map(|i| i * i).collect();
        assert_eq!(par, seq);
    }
}

#[test]
fn compute_bound_map_exact_matches_sequential_below_and_above_floor() {
    for n in [3usize, COMPUTE_BOUND_DISPATCH_MIN + 1] {
        let r = compute_bound_map(n, |i| i + 1, 4);
        assert_eq!(r.len(), n);
        assert_eq!(r[n - 1], n);
    }
}

#[test]
fn parallel_fraction_handles_chunk_overshoot_sizes() {
    let (chunks, chunk) = chunk_plan(5, 4);
    assert_eq!((chunks, chunk), (4, 2));
    assert_eq!(region_bounds(3, chunk, 5), (5, 5));
    assert_eq!(region_bounds(2, chunk, 5), (4, 5));
    let r = parallel_try_elementwise(5, halves, 4).unwrap();
    assert_eq!(r.len(), 5);
}
