//! Data-parallel element-wise kernels. The work is split into disjoint,
//! contiguous index ranges, one per worker; each range is computed by the
//! same per-element operation the sequential lane applies, and the ranges
//! tile the output, so the assembled result is the sequential one whatever
//! the worker count. Handing the ranges to threads is the caller's part:
//! here each range is computed in turn.
use crate::error::AjisaiError;
use crate::plan::{purity_by_name, purity_spec, Purity};
use crate::rational::Fraction;
use vstd::prelude::*;

verus! {

/// Minimum number of output lanes before an element-wise integer kernel
/// fans out: below it the dispatch cost cannot be amortized.
pub const PARALLEL_DISPATCH_MIN: usize = 900_000;

/// Minimum number of lanes before a compute-bound (exact-rational) kernel
/// fans out.
pub const COMPUTE_BOUND_DISPATCH_MIN: usize = 32_768;

/// The smallest element count at which the purity gate admits a pure word.
pub const MIN_PARALLEL_WORK_SCORE: usize = 1024;

/// The space budget the purity gate allows a parallel kernel to fill.
pub const MAX_MATERIALIZED_ELEMENTS: usize = 10_000_000;

/// Coarse cost class of a data-parallel kernel; the dispatch floor is
/// chosen per class.
#[derive(Clone, Copy, Debug, PartialEq, Eq, Structural)]
pub enum ParallelOpClass {
    /// Memory-bandwidth-bound: element-wise `i64` arithmetic.
    BandwidthBound,
    /// Compute-bound: exact-rational arithmetic per lane.
    ComputeBound,
}

pub open spec fn dispatch_min_spec(class: ParallelOpClass) -> usize {
    match class {
        ParallelOpClass::BandwidthBound => PARALLEL_DISPATCH_MIN,
        ParallelOpClass::ComputeBound => COMPUTE_BOUND_DISPATCH_MIN,
    }
}

/// Minimum element count before the pool engages for a kernel of `class`.
pub fn parallel_dispatch_min(class: ParallelOpClass) -> (r: usize)
    ensures
        r == dispatch_min_spec(class),
{
    match class {
        ParallelOpClass::BandwidthBound => PARALLEL_DISPATCH_MIN,
        ParallelOpClass::ComputeBound => COMPUTE_BOUND_DISPATCH_MIN,
    }
}

/// The purity gate: the word is provably pure, and the element count is
/// past the minimum work score and within the space budget.
pub open spec fn gate_spec(word: Seq<char>, n: nat) -> bool {
    &&& purity_spec(word) == Some(Purity::Pure)
    &&& MIN_PARALLEL_WORK_SCORE <= n <= MAX_MATERIALIZED_ELEMENTS
}

pub fn gate_allows(word: &str, element_count: usize) -> (r: bool)
    ensures
        r == gate_spec(word@, element_count as nat),
{
    match purity_by_name(word) {
        Some(Purity::Pure) => MIN_PARALLEL_WORK_SCORE <= element_count && element_count
            <= MAX_MATERIALIZED_ELEMENTS,
        _ => false,
    }
}

/// Whether an element-wise integer kernel of `n` lanes fans out across
/// `workers` workers.
pub open spec fn fans_out(word: Seq<char>, n: nat, workers: nat) -> bool {
    workers >= 2 && n >= PARALLEL_DISPATCH_MIN && gate_spec(word, n)
}

/// Whether an element-wise integer kernel for `word` over `n` lanes fans
/// out across `workers` workers.
pub fn dispatches_in_parallel(word: &str, n: usize, workers: usize) -> (r: bool)
    ensures
        r == fans_out(word@, n as nat, workers as nat),
{
    workers >= 2 && n >= PARALLEL_DISPATCH_MIN && gate_allows(word, n)
}

// ── Chunking ─────────────────────────────────────────────────────────────────
pub open spec fn chunk_count(n: nat, workers: nat) -> nat {
    let c = if workers < n {
        workers
    } else {
        n
    };
    if c == 0 {
        1
    } else {
        c
    }
}

pub open spec fn chunk_len(n: nat, chunks: nat) -> nat {
    if n % chunks == 0 {
        n / chunks
    } else {
        n / chunks + 1
    }
}

/// Where range `i` of `n` lanes cut in ranges of `c` starts.
pub open spec fn region_start(i: nat, c: nat, n: nat) -> nat {
    if i * c >= n {
        n
    } else {
        i * c
    }
}

/// Where range `i` ends (exclusive).
pub open spec fn region_end(i: nat, c: nat, n: nat) -> nat {
    let s = region_start(i, c, n);
    if c >= n - s {
        n
    } else {
        s + c
    }
}

/// How `n` lanes are split for `workers` workers: one range per worker but
/// never more ranges than lanes, each range `chunk` lanes long (the last
/// ones possibly shorter or empty).
pub fn chunk_plan(n: usize, workers: usize) -> (r: (usize, usize))
    ensures
        r.0 == chunk_count(n as nat, workers as nat),
        r.1 == chunk_len(n as nat, r.0 as nat),
        r.0 >= 1,
{
    let mut chunks = if workers < n {
        workers
    } else {
        n
    };
    if chunks == 0 {
        chunks = 1;
    }
    let chunk = if n % chunks == 0 {
        n / chunks
    } else {
        proof {
            assert(chunks >= 2);
            assert(n / chunks <= n / 2) by (nonlinear_arith)
                requires
                    chunks >= 2,
            ;
        }
        n / chunks + 1
    };
    (chunks, chunk)
}

/// The index range `[start, end)` of range `i`.
pub fn region_bounds(i: usize, chunk: usize, n: usize) -> (r: (usize, usize))
    ensures
        r.0 == region_start(i as nat, chunk as nat, n as nat),
        r.1 == region_end(i as nat, chunk as nat, n as nat),
        r.0 <= r.1 <= n,
{
    proof {
        assert((i as int) * (chunk as int) <= (usize::MAX as int) * (usize::MAX as int)) by (nonlinear_arith)
            requires
                i <= usize::MAX,
                chunk <= usize::MAX,
        ;
        assert((usize::MAX as int) * (usize::MAX as int) <= u128::MAX) by (nonlinear_arith)
            requires
                usize::MAX <= u64::MAX,
        ;
    }
    let start: usize = if (i as u128) * (chunk as u128) >= (n as u128) {
        n
    } else {
        proof {
            assert((i as u128) * (chunk as u128) == i * chunk);
        }
        (((i as u128) * (chunk as u128)) as usize)
    };
    let end: usize = if chunk >= n - start {
        n
    } else {
        start + chunk
    };
    (start, end)
}

/// The ranges tile the lanes: the first starts at 0, each ends where the
/// next starts, and the last ends at `n`.
pub proof fn law_regions_tile(n: nat, workers: nat)
    ensures
        ({
            let chunks = chunk_count(n, workers);
            let c = chunk_len(n, chunks);
            &&& region_start(0, c, n) == 0
            &&& forall|i: nat|
                i + 1 < chunks ==> #[trigger] region_end(i, c, n) == region_start(i + 1, c, n)
            &&& region_end((chunks - 1) as nat, c, n) == n
        }),
{
    let chunks = chunk_count(n, workers);
    let c = chunk_len(n, chunks);
    assert(0 * c == 0) by (nonlinear_arith);
    assert forall|i: nat| i + 1 < chunks implies #[trigger] region_end(i, c, n) == region_start(
        i + 1,
        c,
        n,
    ) by {
        assert((i + 1) * c == i * c + c) by (nonlinear_arith);
    }
    let last = (chunks - 1) as nat;
    assert(chunks * c >= n) by (nonlinear_arith)
        requires
            chunks >= 1,
            c == (if n % chunks == 0 {
                n / chunks
            } else {
                n / chunks + 1
            }),
    {
        assert(n == chunks * (n / chunks) + n % chunks);
    }
    assert(last * c + c == chunks * c) by (nonlinear_arith)
        requires
            last + 1 == chunks,
    ;
}

// ── Integer kernels ──────────────────────────────────────────────────────────
/// `op` applied lane by lane over `[start, end)` of two lanes.
pub fn binary_region<F: Fn(i64, i64) -> i64>(a: &[i64], b: &[i64], op: &F, start: usize, end: usize) -> (r: Vec<i64>)
    requires
        start <= end <= a@.len(),
        a@.len() == b@.len(),
        forall|i: int| 0 <= i < a@.len() ==> call_requires(*op, (#[trigger] a@[i], b@[i])),
    ensures
        r@.len() == end - start,
        forall|k: int| 0 <= k < r@.len() ==> call_ensures(*op, (a@[start + k], b@[start + k]), #[trigger] r@[k]),
{
    let mut out: Vec<i64> = Vec::new();
    let mut i = start;
    while i < end
        invariant
            start <= i <= end <= a@.len(),
            a@.len() == b@.len(),
            forall|j: int| 0 <= j < a@.len() ==> call_requires(*op, (#[trigger] a@[j], b@[j])),
            out@.len() == i - start,
            forall|k: int| 0 <= k < out@.len() ==> call_ensures(*op, (a@[start + k], b@[start + k]), #[trigger] out@[k]),
        decreases end - i,
    {
        let v = op(a[i], b[i]);
        out.push(v);
        i = i + 1;
    }
    out
}

/// Element-wise binary op over two equal-length lanes, computed range by
/// range as the workers would split it.
pub fn run_parallel_binary<F: Fn(i64, i64) -> i64>(a: &[i64], b: &[i64], op: F, workers: usize) -> (r: Vec<i64>)
    requires
        a@.len() == b@.len(),
        forall|i: int| 0 <= i < a@.len() ==> call_requires(op, (#[trigger] a@[i], b@[i])),
    ensures
        r@.len() == a@.len(),
        forall|i: int| 0 <= i < r@.len() ==> call_ensures(op, (a@[i], b@[i]), #[trigger] r@[i]),
{
    let n = a.len();
    let (chunks, chunk) = chunk_plan(n, workers);
    proof {
        law_regions_tile(n as nat, workers as nat);
    }
    let mut out: Vec<i64> = Vec::new();
    let mut i: usize = 0;
    while i < chunks
        invariant
            n == a@.len(),
            a@.len() == b@.len(),
            forall|j: int| 0 <= j < a@.len() ==> call_requires(op, (#[trigger] a@[j], b@[j])),
            chunks == chunk_count(n as nat, workers as nat),
            chunk == chunk_len(n as nat, chunks as nat),
            region_start(0, chunk as nat, n as nat) == 0,
            forall|k: nat| k + 1 < chunks ==> #[trigger] region_end(k, chunk as nat, n as nat) == region_start(k + 1, chunk as nat, n as nat),
            region_end((chunks - 1) as nat, chunk as nat, n as nat) == n,
            1 <= chunks,
            0 <= i <= chunks,
            out@.len() == (if i == 0 { 0 } else { region_end((i - 1) as nat, chunk as nat, n as nat) }),
            forall|k: int| 0 <= k < out@.len() ==> call_ensures(op, (a@[k], b@[k]), #[trigger] out@[k]),
        decreases chunks - i,
    {
        let (start, end) = region_bounds(i, chunk, n);
        proof {
            if i > 0 {
                assert(region_end((i - 1) as nat, chunk as nat, n as nat) == region_start(i as nat, chunk as nat, n as nat));
            }
        }
        let mut region = binary_region(a, b, &op, start, end);
        let ghost before = out@;
        let ghost rv = region@;
        out.append(&mut region);
        proof {
            assert(out@ == before + rv);
            assert forall|k: int| 0 <= k < out@.len() implies call_ensures(op, (a@[k], b@[k]), #[trigger] out@[k]) by {
                if k >= before.len() {
                    assert(out@[k] == rv[k - start]);
                }
            }
        }
        i = i + 1;
    }
    out
}

/// Whatever the worker counts, two element-wise runs over the same lanes
/// agree, and so agree with the sequential lane, when `op` answers one
/// value per input: each element is what `op` gives for its lanes.
pub proof fn law_parallel_matches_sequential<F: Fn(i64, i64) -> i64>(
    op: F,
    a: Seq<i64>,
    b: Seq<i64>,
    r1: Seq<i64>,
    r2: Seq<i64>,
)
    requires
        a.len() == b.len(),
        r1.len() == a.len(),
        r2.len() == a.len(),
        forall|i: int| 0 <= i < a.len() ==> call_ensures(op, (a[i], b[i]), #[trigger] r1[i]),
        forall|i: int| 0 <= i < a.len() ==> call_ensures(op, (a[i], b[i]), #[trigger] r2[i]),
        forall|x: (i64, i64), y1: i64, y2: i64|
            call_ensures(op, x, y1) && call_ensures(op, x, y2) ==> y1 == y2,
    ensures
        r1 == r2,
{
    assert forall|i: int| 0 <= i < r1.len() implies r1[i] == r2[i] by {
        assert(call_ensures(op, (a[i], b[i]), r1[i]));
        assert(call_ensures(op, (a[i], b[i]), r2[i]));
    }
    assert(r1 =~= r2);
}

/// `op(lane, scalar)` applied lane by lane over `[start, end)`.
pub fn scalar_region<F: Fn(i64, i64) -> i64>(a: &[i64], scalar: i64, op: &F, start: usize, end: usize) -> (r: Vec<i64>)
    requires
        start <= end <= a@.len(),
        forall|i: int| 0 <= i < a@.len() ==> call_requires(*op, (#[trigger] a@[i], scalar)),
    ensures
        r@.len() == end - start,
        forall|k: int| 0 <= k < r@.len() ==> call_ensures(*op, (a@[start + k], scalar), #[trigger] r@[k]),
{
    let mut out: Vec<i64> = Vec::new();
    let mut i = start;
    while i < end
        invariant
            start <= i <= end <= a@.len(),
            forall|j: int| 0 <= j < a@.len() ==> call_requires(*op, (#[trigger] a@[j], scalar)),
            out@.len() == i - start,
            forall|k: int| 0 <= k < out@.len() ==> call_ensures(*op, (a@[start + k], scalar), #[trigger] out@[k]),
        decreases end - i,
    {
        let v = op(a[i], scalar);
        out.push(v);
        i = i + 1;
    }
    out
}

/// Element-wise op between a lane and a broadcast scalar, computed range by
/// range as the workers would split it.
pub fn run_parallel_scalar<F: Fn(i64, i64) -> i64>(a: &[i64], scalar: i64, op: F, workers: usize) -> (r: Vec<i64>)
    requires
        forall|i: int| 0 <= i < a@.len() ==> call_requires(op, (#[trigger] a@[i], scalar)),
    ensures
        r@.len() == a@.len(),
        forall|i: int| 0 <= i < r@.len() ==> call_ensures(op, (a@[i], scalar), #[trigger] r@[i]),
{
    let n = a.len();
    let (chunks, chunk) = chunk_plan(n, workers);
    proof {
        law_regions_tile(n as nat, workers as nat);
    }
    let mut out: Vec<i64> = Vec::new();
    let mut i: usize = 0;
    while i < chunks
        invariant
            n == a@.len(),
            forall|j: int| 0 <= j < a@.len() ==> call_requires(op, (#[trigger] a@[j], scalar)),
            chunks == chunk_count(n as nat, workers as nat),
            chunk == chunk_len(n as nat, chunks as nat),
            region_start(0, chunk as nat, n as nat) == 0,
            forall|k: nat| k + 1 < chunks ==> #[trigger] region_end(k, chunk as nat, n as nat) == region_start(k + 1, chunk as nat, n as nat),
            region_end((chunks - 1) as nat, chunk as nat, n as nat) == n,
            1 <= chunks,
            0 <= i <= chunks,
            out@.len() == (if i == 0 { 0 } else { region_end((i - 1) as nat, chunk as nat, n as nat) }),
            forall|k: int| 0 <= k < out@.len() ==> call_ensures(op, (a@[k], scalar), #[trigger] out@[k]),
        decreases chunks - i,
    {
        let (start, end) = region_bounds(i, chunk, n);
        proof {
            if i > 0 {
                assert(region_end((i - 1) as nat, chunk as nat, n as nat) == region_start(i as nat, chunk as nat, n as nat));
            }
        }
        let mut region = scalar_region(a, scalar, &op, start, end);
        let ghost before = out@;
        let ghost rv = region@;
        out.append(&mut region);
        proof {
            assert(out@ == before + rv);
            assert forall|k: int| 0 <= k < out@.len() implies call_ensures(op, (a@[k], scalar), #[trigger] out@[k]) by {
                if k >= before.len() {
                    assert(out@[k] == rv[k - start]);
                }
            }
        }
        i = i + 1;
    }
    out
}

/// Some lane of `[start, end)` overflowed under `op`.
pub open spec fn some_binary_lane_fails<F: Fn(i64, i64) -> Option<i64>>(a: Seq<i64>, b: Seq<i64>, op: F, start: int, end: int) -> bool {
    exists|i: int| start <= i < end && call_ensures(op, (a[i], b[i]), None::<i64>)
}

pub open spec fn some_scalar_lane_fails<F: Fn(i64, i64) -> Option<i64>>(a: Seq<i64>, scalar: i64, op: F, start: int, end: int) -> bool {
    exists|i: int| start <= i < end && call_ensures(op, (a[i], scalar), None::<i64>)
}

/// The overflow-checked `op` over `[start, end)`; `None` as soon as a lane
/// overflows.
pub fn binary_region_checked<F: Fn(i64, i64) -> Option<i64>>(a: &[i64], b: &[i64], op: &F, start: usize, end: usize) -> (r: Option<Vec<i64>>)
    requires
        start <= end <= a@.len(),
        a@.len() == b@.len(),
        forall|i: int| 0 <= i < a@.len() ==> call_requires(*op, (#[trigger] a@[i], b@[i])),
    ensures
        match r {
            Some(v) => v@.len() == end - start && forall|k: int|
                0 <= k < v@.len() ==> call_ensures(*op, (a@[start + k], b@[start + k]), Some(#[trigger] v@[k])),
            None => some_binary_lane_fails(a@, b@, *op, start as int, end as int),
        },
{
    let mut out: Vec<i64> = Vec::new();
    let mut i = start;
    while i < end
        invariant
            start <= i <= end <= a@.len(),
            a@.len() == b@.len(),
            forall|j: int| 0 <= j < a@.len() ==> call_requires(*op, (#[trigger] a@[j], b@[j])),
            out@.len() == i - start,
            forall|k: int| 0 <= k < out@.len() ==> call_ensures(*op, (a@[start + k], b@[start + k]), Some(#[trigger] out@[k])),
        decreases end - i,
    {
        match op(a[i], b[i]) {
            Some(v) => out.push(v),
            None => {
                proof {
                    assert(call_ensures(*op, (a@[i as int], b@[i as int]), None::<i64>));
                }
                return None;
            },
        }
        i = i + 1;
    }
    Some(out)
}

/// The overflow-checked `op(lane, scalar)` over `[start, end)`.
pub fn scalar_region_checked<F: Fn(i64, i64) -> Option<i64>>(a: &[i64], scalar: i64, op: &F, start: usize, end: usize) -> (r: Option<Vec<i64>>)
    requires
        start <= end <= a@.len(),
        forall|i: int| 0 <= i < a@.len() ==> call_requires(*op, (#[trigger] a@[i], scalar)),
    ensures
        match r {
            Some(v) => v@.len() == end - start && forall|k: int|
                0 <= k < v@.len() ==> call_ensures(*op, (a@[start + k], scalar), Some(#[trigger] v@[k])),
            None => some_scalar_lane_fails(a@, scalar, *op, start as int, end as int),
        },
{
    let mut out: Vec<i64> = Vec::new();
    let mut i = start;
    while i < end
        invariant
            start <= i <= end <= a@.len(),
            forall|j: int| 0 <= j < a@.len() ==> call_requires(*op, (#[trigger] a@[j], scalar)),
            out@.len() == i - start,
            forall|k: int| 0 <= k < out@.len() ==> call_ensures(*op, (a@[start + k], scalar), Some(#[trigger] out@[k])),
        decreases end - i,
    {
        match op(a[i], scalar) {
            Some(v) => out.push(v),
            None => {
                proof {
                    assert(call_ensures(*op, (a@[i as int], scalar), None::<i64>));
                }
                return None;
            },
        }
        i = i + 1;
    }
    Some(out)
}

/// Overflow-checked element-wise binary op: `None` when some lane
/// overflowed `i64`, otherwise the lane results, computed range by range.
pub fn run_parallel_binary_checked<F: Fn(i64, i64) -> Option<i64>>(a: &[i64], b: &[i64], op: F, workers: usize) -> (r: Option<Vec<i64>>)
    requires
        a@.len() == b@.len(),
        forall|i: int| 0 <= i < a@.len() ==> call_requires(op, (#[trigger] a@[i], b@[i])),
    ensures
        match r {
            Some(v) => v@.len() == a@.len() && forall|i: int|
                0 <= i < v@.len() ==> call_ensures(op, (a@[i], b@[i]), Some(#[trigger] v@[i])),
            None => some_binary_lane_fails(a@, b@, op, 0, a@.len() as int),
        },
{
    let n = a.len();
    let (chunks, chunk) = chunk_plan(n, workers);
    proof {
        law_regions_tile(n as nat, workers as nat);
    }
    let mut out: Vec<i64> = Vec::new();
    let mut i: usize = 0;
    while i < chunks
        invariant
            n == a@.len(),
            a@.len() == b@.len(),
            forall|j: int| 0 <= j < a@.len() ==> call_requires(op, (#[trigger] a@[j], b@[j])),
            chunks == chunk_count(n as nat, workers as nat),
            chunk == chunk_len(n as nat, chunks as nat),
            region_start(0, chunk as nat, n as nat) == 0,
            forall|k: nat| k + 1 < chunks ==> #[trigger] region_end(k, chunk as nat, n as nat) == region_start(k + 1, chunk as nat, n as nat),
            region_end((chunks - 1) as nat, chunk as nat, n as nat) == n,
            1 <= chunks,
            0 <= i <= chunks,
            out@.len() == (if i == 0 { 0 } else { region_end((i - 1) as nat, chunk as nat, n as nat) }),
            forall|k: int| 0 <= k < out@.len() ==> call_ensures(op, (a@[k], b@[k]), Some(#[trigger] out@[k])),
        decreases chunks - i,
    {
        let (start, end) = region_bounds(i, chunk, n);
        proof {
            if i > 0 {
                assert(region_end((i - 1) as nat, chunk as nat, n as nat) == region_start(i as nat, chunk as nat, n as nat));
            }
        }
        match binary_region_checked(a, b, &op, start, end) {
            Some(mut region) => {
                let ghost before = out@;
                let ghost rv = region@;
                out.append(&mut region);
                proof {
                    assert(out@ == before + rv);
                    assert forall|k: int| 0 <= k < out@.len() implies call_ensures(op, (a@[k], b@[k]), Some(#[trigger] out@[k])) by {
                        if k >= before.len() {
                            assert(out@[k] == rv[k - start]);
                        }
                    }
                }
            },
            None => {
                return None;
            },
        }
        i = i + 1;
    }
    Some(out)
}

/// Overflow-checked element-wise op between a lane and a scalar.
pub fn run_parallel_scalar_checked<F: Fn(i64, i64) -> Option<i64>>(a: &[i64], scalar: i64, op: F, workers: usize) -> (r: Option<Vec<i64>>)
    requires
        forall|i: int| 0 <= i < a@.len() ==> call_requires(op, (#[trigger] a@[i], scalar)),
    ensures
        match r {
            Some(v) => v@.len() == a@.len() && forall|i: int|
                0 <= i < v@.len() ==> call_ensures(op, (a@[i], scalar), Some(#[trigger] v@[i])),
            None => some_scalar_lane_fails(a@, scalar, op, 0, a@.len() as int),
        },
{
    let n = a.len();
    let (chunks, chunk) = chunk_plan(n, workers);
    proof {
        law_regions_tile(n as nat, workers as nat);
    }
    let mut out: Vec<i64> = Vec::new();
    let mut i: usize = 0;
    while i < chunks
        invariant
            n == a@.len(),
            forall|j: int| 0 <= j < a@.len() ==> call_requires(op, (#[trigger] a@[j], scalar)),
            chunks == chunk_count(n as nat, workers as nat),
            chunk == chunk_len(n as nat, chunks as nat),
            region_start(0, chunk as nat, n as nat) == 0,
            forall|k: nat| k + 1 < chunks ==> #[trigger] region_end(k, chunk as nat, n as nat) == region_start(k + 1, chunk as nat, n as nat),
            region_end((chunks - 1) as nat, chunk as nat, n as nat) == n,
            1 <= chunks,
            0 <= i <= chunks,
            out@.len() == (if i == 0 { 0 } else { region_end((i - 1) as nat, chunk as nat, n as nat) }),
            forall|k: int| 0 <= k < out@.len() ==> call_ensures(op, (a@[k], scalar), Some(#[trigger] out@[k])),
        decreases chunks - i,
    {
        let (start, end) = region_bounds(i, chunk, n);
        proof {
            if i > 0 {
                assert(region_end((i - 1) as nat, chunk as nat, n as nat) == region_start(i as nat, chunk as nat, n as nat));
            }
        }
        match scalar_region_checked(a, scalar, &op, start, end) {
            Some(mut region) => {
                let ghost before = out@;
                let ghost rv = region@;
                out.append(&mut region);
                proof {
                    assert(out@ == before + rv);
                    assert forall|k: int| 0 <= k < out@.len() implies call_ensures(op, (a@[k], scalar), Some(#[trigger] out@[k])) by {
                        if k >= before.len() {
                            assert(out@[k] == rv[k - start]);
                        }
                    }
                }
            },
            None => {
                return None;
            },
        }
        i = i + 1;
    }
    Some(out)
}

// ── Gated entry points ───────────────────────────────────────────────────────
/// `r` holds `op` of every pair of lanes.
pub open spec fn binary_lanes<F: Fn(i64, i64) -> i64>(a: Seq<i64>, b: Seq<i64>, op: F, r: Seq<i64>) -> bool {
    r.len() == a.len() && forall|i: int| 0 <= i < r.len() ==> call_ensures(op, (a[i], b[i]), #[trigger] r[i])
}

pub open spec fn scalar_lanes<F: Fn(i64, i64) -> i64>(a: Seq<i64>, scalar: i64, op: F, r: Seq<i64>) -> bool {
    r.len() == a.len() && forall|i: int| 0 <= i < r.len() ==> call_ensures(op, (a[i], scalar), #[trigger] r[i])
}

/// `r` is what the overflow-checked `op` gives over every pair of lanes.
pub open spec fn binary_lanes_checked<F: Fn(i64, i64) -> Option<i64>>(a: Seq<i64>, b: Seq<i64>, op: F, r: Option<Vec<i64>>) -> bool {
    match r {
        Some(v) => v@.len() == a.len() && forall|i: int|
            0 <= i < v@.len() ==> call_ensures(op, (a[i], b[i]), Some(#[trigger] v@[i])),
        None => some_binary_lane_fails(a, b, op, 0, a.len() as int),
    }
}

pub open spec fn scalar_lanes_checked<F: Fn(i64, i64) -> Option<i64>>(a: Seq<i64>, scalar: i64, op: F, r: Option<Vec<i64>>) -> bool {
    match r {
        Some(v) => v@.len() == a.len() && forall|i: int|
            0 <= i < v@.len() ==> call_ensures(op, (a[i], scalar), Some(#[trigger] v@[i])),
        None => some_scalar_lane_fails(a, scalar, op, 0, a.len() as int),
    }
}

/// Element-wise binary integer op over two equal-length lanes: the
/// sequential `lane` kernel unless the kernel fans out (two or more
/// workers, past [`PARALLEL_DISPATCH_MIN`], admitted by the purity gate).
/// The flag reports whether it fanned out. When `lane` agrees with `op`
/// lane by lane, the result is the same either way.
pub fn elementwise_binary<F: Fn(i64, i64) -> i64, L: Fn(&[i64], &[i64]) -> Vec<i64>>(
    word: &str,
    a: &[i64],
    b: &[i64],
    op: F,
    lane: L,
    workers: usize,
) -> (r: (Vec<i64>, bool))
    requires
        a@.len() == b@.len(),
        forall|i: int| 0 <= i < a@.len() ==> call_requires(op, (#[trigger] a@[i], b@[i])),
        call_requires(lane, (a, b)),
    ensures
        r.1 == fans_out(word@, a@.len(), workers as nat),
        r.1 ==> binary_lanes(a@, b@, op, r.0@),
        !r.1 ==> call_ensures(lane, (a, b), r.0),
        (forall|v: Vec<i64>| #[trigger] call_ensures(lane, (a, b), v) ==> binary_lanes(a@, b@, op, v@))
            ==> binary_lanes(a@, b@, op, r.0@),
{
    let n = a.len();
    if workers < 2 || n < PARALLEL_DISPATCH_MIN || !gate_allows(word, n) {
        return (lane(a, b), false);
    }
    (run_parallel_binary(a, b, op, workers), true)
}

/// Overflow-checked counterpart of [`elementwise_binary`]: the flag is set
/// only when the kernel fanned out and no lane overflowed.
pub fn elementwise_binary_checked<
    F: Fn(i64, i64) -> Option<i64>,
    L: Fn(&[i64], &[i64]) -> Option<Vec<i64>>,
>(word: &str, a: &[i64], b: &[i64], op: F, lane: L, workers: usize) -> (r: (
    Option<Vec<i64>>,
    bool,
))
    requires
        a@.len() == b@.len(),
        forall|i: int| 0 <= i < a@.len() ==> call_requires(op, (#[trigger] a@[i], b@[i])),
        call_requires(lane, (a, b)),
    ensures
        !fans_out(word@, a@.len(), workers as nat) ==> !r.1 && call_ensures(lane, (a, b), r.0),
        fans_out(word@, a@.len(), workers as nat) ==> binary_lanes_checked(a@, b@, op, r.0) && r.1
            == (r.0 is Some),
        (forall|v: Option<Vec<i64>>| #[trigger] call_ensures(lane, (a, b), v) ==> binary_lanes_checked(a@, b@, op, v))
            ==> binary_lanes_checked(a@, b@, op, r.0),
{
    let n = a.len();
    if workers < 2 || n < PARALLEL_DISPATCH_MIN || !gate_allows(word, n) {
        return (lane(a, b), false);
    }
    let result = run_parallel_binary_checked(a, b, op, workers);
    let fired = result.is_some();
    (result, fired)
}

/// Element-wise op between a lane and a broadcast scalar; the same
/// contract as [`elementwise_binary`].
pub fn elementwise_scalar<F: Fn(i64, i64) -> i64, L: Fn(&[i64], i64) -> Vec<i64>>(
    word: &str,
    a: &[i64],
    scalar: i64,
    op: F,
    lane: L,
    workers: usize,
) -> (r: (Vec<i64>, bool))
    requires
        forall|i: int| 0 <= i < a@.len() ==> call_requires(op, (#[trigger] a@[i], scalar)),
        call_requires(lane, (a, scalar)),
    ensures
        r.1 == fans_out(word@, a@.len(), workers as nat),
        r.1 ==> scalar_lanes(a@, scalar, op, r.0@),
        !r.1 ==> call_ensures(lane, (a, scalar), r.0),
        (forall|v: Vec<i64>| #[trigger] call_ensures(lane, (a, scalar), v) ==> scalar_lanes(a@, scalar, op, v@))
            ==> scalar_lanes(a@, scalar, op, r.0@),
{
    let n = a.len();
    if workers < 2 || n < PARALLEL_DISPATCH_MIN || !gate_allows(word, n) {
        return (lane(a, scalar), false);
    }
    (run_parallel_scalar(a, scalar, op, workers), true)
}

/// Overflow-checked counterpart of [`elementwise_scalar`].
pub fn elementwise_scalar_checked<
    F: Fn(i64, i64) -> Option<i64>,
    L: Fn(&[i64], i64) -> Option<Vec<i64>>,
>(word: &str, a: &[i64], scalar: i64, op: F, lane: L, workers: usize) -> (r: (
    Option<Vec<i64>>,
    bool,
))
    requires
        forall|i: int| 0 <= i < a@.len() ==> call_requires(op, (#[trigger] a@[i], scalar)),
        call_requires(lane, (a, scalar)),
    ensures
        !fans_out(word@, a@.len(), workers as nat) ==> !r.1 && call_ensures(lane, (a, scalar), r.0),
        fans_out(word@, a@.len(), workers as nat) ==> scalar_lanes_checked(a@, scalar, op, r.0)
            && r.1 == (r.0 is Some),
        (forall|v: Option<Vec<i64>>| #[trigger] call_ensures(lane, (a, scalar), v) ==> scalar_lanes_checked(a@, scalar, op, v))
            ==> scalar_lanes_checked(a@, scalar, op, r.0),
{
    let n = a.len();
    if workers < 2 || n < PARALLEL_DISPATCH_MIN || !gate_allows(word, n) {
        return (lane(a, scalar), false);
    }
    let result = run_parallel_scalar_checked(a, scalar, op, workers);
    let fired = result.is_some();
    (result, fired)
}

// ── Per-index kernels ────────────────────────────────────────────────────────
/// The fallible per-index op raised `e` at index `i`.
pub open spec fn raises_at<F: Fn(usize) -> Result<Fraction, AjisaiError>>(f: F, i: int, e: AjisaiError) -> bool {
    call_ensures(f, (i as usize,), Err::<Fraction, AjisaiError>(e))
}

/// The fallible per-index op can answer a value at index `j`.
pub open spec fn succeeds_at<F: Fn(usize) -> Result<Fraction, AjisaiError>>(f: F, j: int) -> bool {
    exists|v: Fraction| #[trigger] call_ensures(f, (j as usize,), Ok::<Fraction, AjisaiError>(v))
}

/// `r` is what the fallible per-index op gives for indices `0..n`, as the
/// sequential lane gives it: every lane, or the error of the first index
/// that raised one, every index before it having answered a value.
pub open spec fn try_lanes<F: Fn(usize) -> Result<Fraction, AjisaiError>>(n: nat, f: F, r: Result<Vec<Fraction>, AjisaiError>) -> bool {
    match r {
        Ok(v) => v@.len() == n && forall|i: int| 0 <= i < n ==> call_ensures(f, (i as usize,), Ok(#[trigger] v@[i])),
        Err(e) => exists|i: int| 0 <= i < n && #[trigger] raises_at(f, i, e) && forall|j: int| 0 <= j < i ==> #[trigger] succeeds_at(f, j),
    }
}

/// The fallible per-index op over `[start, end)`; the first error stops it.
pub fn try_region<F: Fn(usize) -> Result<Fraction, AjisaiError>>(f: &F, start: usize, end: usize) -> (r: Result<Vec<Fraction>, AjisaiError>)
    requires
        start <= end,
        forall|i: usize| i < end ==> call_requires(*f, (i,)),
    ensures
        match r {
            Ok(v) => v@.len() == end - start && forall|k: int|
                0 <= k < v@.len() ==> call_ensures(*f, ((start + k) as usize,), Ok(#[trigger] v@[k])),
            Err(e) => exists|i: int| start <= i < end && #[trigger] raises_at(*f, i, e) && forall|j: int| start <= j < i ==> #[trigger] succeeds_at(*f, j),
        },
{
    let mut out: Vec<Fraction> = Vec::new();
    let mut i = start;
    while i < end
        invariant
            start <= i <= end,
            forall|j: usize| j < end ==> call_requires(*f, (j,)),
            out@.len() == i - start,
            forall|k: int| 0 <= k < out@.len() ==> call_ensures(*f, ((start + k) as usize,), Ok(#[trigger] out@[k])),
        decreases end - i,
    {
        match f(i) {
            Ok(v) => out.push(v),
            Err(e) => {
                proof {
                    assert((i as int) as usize == i);
                    assert(raises_at(*f, i as int, e));
                    assert forall|j: int| start <= j < i implies #[trigger] succeeds_at(*f, j) by {
                        assert(call_ensures(*f, ((start + (j - start)) as usize,), Ok::<Fraction, AjisaiError>(out@[j - start])));
                        assert((start + (j - start)) as usize == j as usize);
                    }
                }
                return Err(e);
            },
        }
        i = i + 1;
    }
    Ok(out)
}

/// The fallible compute-bound per-index op for indices `0..n`, computed
/// range by range as the workers would split it; the first error met is
/// answered.
pub fn parallel_try_elementwise<F: Fn(usize) -> Result<Fraction, AjisaiError>>(n: usize, f: F, workers: usize) -> (r: Result<Vec<Fraction>, AjisaiError>)
    requires
        forall|i: usize| i < n ==> call_requires(f, (i,)),
    ensures
        try_lanes(n as nat, f, r),
{
    let (chunks, chunk) = chunk_plan(n, workers);
    proof {
        law_regions_tile(n as nat, workers as nat);
    }
    let mut out: Vec<Fraction> = Vec::new();
    let mut i: usize = 0;
    while i < chunks
        invariant
            forall|j: usize| j < n ==> call_requires(f, (j,)),
            chunks == chunk_count(n as nat, workers as nat),
            chunk == chunk_len(n as nat, chunks as nat),
            region_start(0, chunk as nat, n as nat) == 0,
            forall|k: nat| k + 1 < chunks ==> #[trigger] region_end(k, chunk as nat, n as nat) == region_start(k + 1, chunk as nat, n as nat),
            region_end((chunks - 1) as nat, chunk as nat, n as nat) == n,
            1 <= chunks,
            0 <= i <= chunks,
            out@.len() == (if i == 0 { 0 } else { region_end((i - 1) as nat, chunk as nat, n as nat) }),
            forall|k: int| 0 <= k < out@.len() ==> call_ensures(f, (k as usize,), Ok(#[trigger] out@[k])),
        decreases chunks - i,
    {
        let (start, end) = region_bounds(i, chunk, n);
        proof {
            if i > 0 {
                assert(region_end((i - 1) as nat, chunk as nat, n as nat) == region_start(i as nat, chunk as nat, n as nat));
            }
        }
        match try_region(&f, start, end) {
            Ok(mut region) => {
                let ghost before = out@;
                let ghost rv = region@;
                out.append(&mut region);
                proof {
                    assert(out@ == before + rv);
                    assert forall|k: int| 0 <= k < out@.len() implies call_ensures(f, (k as usize,), Ok(#[trigger] out@[k])) by {
                        if k >= before.len() {
                            assert(out@[k] == rv[k - start]);
                            assert((start + (k - start)) as usize == k as usize);
                        }
                    }
                }
            },
            Err(e) => {
                proof {
                    let ii = choose|ii: int| start <= ii < end && #[trigger] raises_at(f, ii, e) && forall|j: int| start <= j < ii ==> #[trigger] succeeds_at(f, j);
                    assert forall|j: int| 0 <= j < ii implies #[trigger] succeeds_at(f, j) by {
                        if j < start {
                            assert(call_ensures(f, (j as usize,), Ok::<Fraction, AjisaiError>(out@[j])));
                        }
                    }
                    assert(raises_at(f, ii, e));
                }
                return Err(e);
            },
        }
        i = i + 1;
    }
    Ok(out)
}

/// The compute-bound fallible op for indices `0..n`: in turn on the
/// sequential lane below [`COMPUTE_BOUND_DISPATCH_MIN`] or with fewer than
/// two workers, range by range otherwise; the same lanes either way.
pub fn compute_bound_elementwise<F: Fn(usize) -> Result<Fraction, AjisaiError>>(n: usize, f: F, workers: usize) -> (r: Result<Vec<Fraction>, AjisaiError>)
    requires
        forall|i: usize| i < n ==> call_requires(f, (i,)),
    ensures
        try_lanes(n as nat, f, r),
{
    if workers < 2 || n < parallel_dispatch_min(ParallelOpClass::ComputeBound) {
        let r = try_region(&f, 0, n);
        proof {
            if r is Ok {
                let v = r->Ok_0;
                assert forall|i: int| 0 <= i < n implies call_ensures(f, (i as usize,), Ok(#[trigger] v@[i])) by {
                    assert((0 + i) as usize == i as usize);
                }
            }
        }
        return r;
    }
    parallel_try_elementwise(n, f, workers)
}

/// The per-index op for indices `0..n`, computed range by range as the
/// workers would split it.
pub fn parallel_map<T, F: Fn(usize) -> T>(n: usize, f: F, workers: usize) -> (r: Vec<T>)
    requires
        forall|i: usize| i < n ==> call_requires(f, (i,)),
    ensures
        r@.len() == n,
        forall|i: int| 0 <= i < n ==> call_ensures(f, (i as usize,), #[trigger] r@[i]),
{
    let (chunks, chunk) = chunk_plan(n, workers);
    proof {
        law_regions_tile(n as nat, workers as nat);
    }
    let mut out: Vec<T> = Vec::new();
    let mut i: usize = 0;
    while i < chunks
        invariant
            forall|j: usize| j < n ==> call_requires(f, (j,)),
            chunks == chunk_count(n as nat, workers as nat),
            chunk == chunk_len(n as nat, chunks as nat),
            region_start(0, chunk as nat, n as nat) == 0,
            forall|k: nat| k + 1 < chunks ==> #[trigger] region_end(k, chunk as nat, n as nat) == region_start(k + 1, chunk as nat, n as nat),
            region_end((chunks - 1) as nat, chunk as nat, n as nat) == n,
            1 <= chunks,
            0 <= i <= chunks,
            out@.len() == (if i == 0 { 0 } else { region_end((i - 1) as nat, chunk as nat, n as nat) }),
            forall|k: int| 0 <= k < out@.len() ==> call_ensures(f, (k as usize,), #[trigger] out@[k]),
        decreases chunks - i,
    {
        let (start, end) = region_bounds(i, chunk, n);
        proof {
            if i > 0 {
                assert(region_end((i - 1) as nat, chunk as nat, n as nat) == region_start(i as nat, chunk as nat, n as nat));
            }
        }
        let mut j = start;
        while j < end
            invariant
                start <= j <= end <= n,
                forall|m: usize| m < n ==> call_requires(f, (m,)),
                out@.len() == j,
                forall|k: int| 0 <= k < out@.len() ==> call_ensures(f, (k as usize,), #[trigger] out@[k]),
            decreases end - j,
        {
            let v = f(j);
            out.push(v);
            j = j + 1;
        }
        i = i + 1;
    }
    out
}

/// The compute-bound per-index op for indices `0..n`: in turn below
/// [`COMPUTE_BOUND_DISPATCH_MIN`] or with fewer than two workers, range by
/// range otherwise; the same lanes either way.
pub fn compute_bound_map<T, F: Fn(usize) -> T>(n: usize, f: F, workers: usize) -> (r: Vec<T>)
    requires
        forall|i: usize| i < n ==> call_requires(f, (i,)),
    ensures
        r@.len() == n,
        forall|i: int| 0 <= i < n ==> call_ensures(f, (i as usize,), #[trigger] r@[i]),
{
    if workers < 2 || n < parallel_dispatch_min(ParallelOpClass::ComputeBound) {
        let mut out: Vec<T> = Vec::new();
        let mut j: usize = 0;
        while j < n
            invariant
                j <= n,
                forall|m: usize| m < n ==> call_requires(f, (m,)),
                out@.len() == j,
                forall|k: int| 0 <= k < out@.len() ==> call_ensures(f, (k as usize,), #[trigger] out@[k]),
            decreases n - j,
        {
            let v = f(j);
            out.push(v);
            j = j + 1;
        }
        return out;
    }
    parallel_map(n, f, workers)
}

} // verus!
