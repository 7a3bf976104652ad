//! Quantized blocks: the static arity / purity analysis of a compiled code
//! block, its kernel classification and the observational VTU hint.
use crate::interpreter::{bump, bumped, Interpreter, RuntimeMetrics};
use crate::plan::{
    builtin_arity, builtin_arity_spec, flatten_plan, ops_view, plan_ops, purity_by_name, purity_spec, CompiledLine,
    CompiledOp, CompiledPlan, Purity,
};
use crate::text::{decimal_digits, decimal_text, spec_to_uppercase, str_equal, to_uppercase};
use crate::value::{copy_string, Token};
use std::rc::Rc;
use vstd::prelude::*;

verus! {

#[derive(Clone, Copy, Debug, PartialEq, Eq, Structural)]
pub enum QuantizedArity {
    Fixed(usize),
    Variable,
}

#[derive(Clone, Copy, Debug, PartialEq, Eq, Structural)]
pub enum QuantizedPurity {
    Pure,
    SideEffecting,
    Unknown,
}

/// Execution surfaces a pure, shape-aware kernel could be scheduled onto.
/// Purely explanatory: it never affects execution.
#[derive(Clone, Copy, Debug, PartialEq, Eq, Structural)]
pub enum VtuBackendCandidate {
    CpuScalar,
    WasmSimd,
    DenseTensorLoop,
    SparseTensorLoop,
    NpuCandidate,
    GpuCandidate,
    TpuCandidate,
    FallbackInterpreter,
}

#[derive(Clone, Copy, Debug, PartialEq, Eq, Structural)]
pub enum VtuSuitability {
    StrongCandidate,
    WeakCandidate,
    NotSuitable,
}

#[derive(Clone, Copy, Debug, PartialEq, Eq, Structural)]
pub enum DataMovementClass {
    /// No data moves.
    NoMovement,
    Low,
    Medium,
    High,
    Unknown,
}

#[derive(Clone, Debug, PartialEq, Eq)]
pub struct VtuHint {
    pub suitability: VtuSuitability,
    pub backend_candidates: Vec<VtuBackendCandidate>,
    pub data_movement: DataMovementClass,
    pub reason: &'static str,
}

impl VtuHint {
    /// The hint of a block that is no candidate: only the fallback
    /// interpreter, unknown data movement.
    pub fn not_suitable(reason: &'static str) -> (r: VtuHint)
        ensures
            r.suitability == VtuSuitability::NotSuitable,
            r.backend_candidates@ == seq![VtuBackendCandidate::FallbackInterpreter],
            r.data_movement == DataMovementClass::Unknown,
            r.reason == reason,
    {
        VtuHint {
            suitability: VtuSuitability::NotSuitable,
            backend_candidates: vec![VtuBackendCandidate::FallbackInterpreter],
            data_movement: DataMovementClass::Unknown,
            reason,
        }
    }

    /// A strong or weak candidate.
    pub fn is_candidate(&self) -> (r: bool)
        ensures
            r == (self.suitability == VtuSuitability::StrongCandidate || self.suitability
                == VtuSuitability::WeakCandidate),
    {
        match self.suitability {
            VtuSuitability::StrongCandidate | VtuSuitability::WeakCandidate => true,
            VtuSuitability::NotSuitable => false,
        }
    }
}

impl Default for VtuHint {
    fn default() -> (r: VtuHint)
        ensures
            r.suitability == VtuSuitability::NotSuitable,
            r.backend_candidates@ == seq![VtuBackendCandidate::FallbackInterpreter],
            r.data_movement == DataMovementClass::Unknown,
            r.reason == "default",
    {
        Self::not_suitable("default")
    }
}

#[derive(Clone, Copy, Debug, PartialEq, Eq, Structural)]
pub enum KernelKind {
    MapUnaryPure,
    PredicateUnaryPure,
    FoldBinaryPure,
    ScanBinaryPure,
    GenericCompiled,
    NonQuantizable,
}

#[derive(Clone, Copy, Debug, PartialEq, Eq, Structural)]
pub struct GuardSignature {
    pub dictionary_epoch: u64,
    pub module_epoch: u64,
    pub kernel_kind: KernelKind,
    pub purity: QuantizedPurity,
}

/// The epochs a block was built under.
#[derive(Clone, Copy, Debug, PartialEq, Eq, Structural)]
pub struct EpochSnapshot {
    pub dictionary_epoch: u64,
    pub module_epoch: u64,
    pub execution_epoch: u64,
}

#[derive(Debug)]
pub struct QuantizedBlock {
    pub compiled_plan: Rc<CompiledPlan>,
    pub captured_epoch: EpochSnapshot,
    pub input_arity: QuantizedArity,
    pub output_arity: QuantizedArity,
    pub purity: QuantizedPurity,
    pub kernel_kind: KernelKind,
    pub fast_path_id: Option<String>,
    pub guard_signature: GuardSignature,
    /// The plan's operations, line after line, as one sequence.
    pub lowered_kernel_ir: Vec<CompiledOp>,
    pub eligible_for_cache: bool,
    pub eligible_for_fusion: bool,
    pub can_fuse: bool,
    pub can_short_circuit: bool,
    pub dependency_words: Vec<String>,
    pub vtu_hint: VtuHint,
}

// ── Token-level gate ─────────────────────────────────────────────────────────
/// A symbol token naming an impure builtin (names compare upper-cased).
pub open spec fn token_is_impure(t: Token) -> bool {
    match t {
        Token::Symbol(s) => purity_spec(spec_to_uppercase(s@)) == Some(Purity::Impure),
        _ => false,
    }
}

/// A block is eligible for quantization iff it is non-empty, holds no line
/// break and names no impure builtin.
pub open spec fn quantizable_spec(tokens: Seq<Token>) -> bool {
    &&& tokens.len() > 0
    &&& forall|i: int| 0 <= i < tokens.len() ==> !(#[trigger] tokens[i] is LineBreak)
    &&& forall|i: int| 0 <= i < tokens.len() ==> !token_is_impure(#[trigger] tokens[i])
}

fn token_is_impure_builtin(t: &Token) -> (r: bool)
    ensures
        r == token_is_impure(*t),
{
    match t {
        Token::Symbol(sym) => {
            let canonical = to_uppercase(sym.as_str());
            match purity_by_name(canonical.as_str()) {
                Some(p) => p == Purity::Impure,
                None => false,
            }
        },
        _ => false,
    }
}

pub fn is_quantizable_block(tokens: &[Token]) -> (r: bool)
    ensures
        r == quantizable_spec(tokens@),
{
    if tokens.len() == 0 {
        return false;
    }
    let mut i: usize = 0;
    while i < tokens.len()
        invariant
            0 <= i <= tokens@.len(),
            forall|k: int| 0 <= k < i ==> !(#[trigger] tokens@[k] is LineBreak),
            forall|k: int| 0 <= k < i ==> !token_is_impure(#[trigger] tokens@[k]),
        decreases tokens@.len() - i,
    {
        if matches!(tokens[i], Token::LineBreak) || token_is_impure_builtin(&tokens[i]) {
            return false;
        }
        i = i + 1;
    }
    true
}

// ── Static arity / purity analysis ──────────────────────────────────────────
/// The state of the abstract stack walk over a plan.
pub struct ArityState {
    pub cur: int,
    pub min: int,
    pub min_at_first_unknown: Option<int>,
    pub all_known: bool,
    pub pure: bool,
}

pub open spec fn initial_arity_state() -> ArityState {
    ArityState { cur: 0, min: 0, min_at_first_unknown: None, all_known: true, pure: true }
}

/// The state after an operation whose arity is not statically known.
pub open spec fn freeze(s: ArityState) -> ArityState {
    ArityState {
        min_at_first_unknown: if s.min_at_first_unknown is None {
            Some(s.min)
        } else {
            s.min_at_first_unknown
        },
        all_known: false,
        ..s
    }
}

/// The builtin has observable effects: impure or of unknown purity.
pub open spec fn side_effecting_spec(name: Seq<char>) -> bool {
    match purity_spec(name) {
        Some(p) => p != Purity::Pure,
        None => false,
    }
}

/// A code-block operand is pure when none of its symbols names an impure
/// builtin.
pub open spec fn block_tokens_pure(t: Seq<Token>) -> bool {
    forall|i: int| 0 <= i < t.len() ==> !token_is_impure(#[trigger] t[i])
}

/// One step of the abstract stack walk. User and qualified words cannot be
/// proven pure without their bodies, so they make the block side-effecting.
pub open spec fn arity_step(s: ArityState, op: CompiledOp) -> ArityState {
    match op {
        CompiledOp::PushLiteral(_) | CompiledOp::PushVectorLiteral(_) => ArityState {
            cur: s.cur + 1,
            ..s
        },
        CompiledOp::PushCodeBlock(t) => ArityState {
            cur: s.cur + 1,
            pure: s.pure && block_tokens_pure(t@),
            ..s
        },
        CompiledOp::CallBuiltin(name) => {
            let pure = s.pure && !side_effecting_spec(name@);
            match builtin_arity_spec(name@) {
                Some((i, o)) => ArityState {
                    cur: s.cur - i + o,
                    min: if s.cur - i < s.min {
                        s.cur - i
                    } else {
                        s.min
                    },
                    pure,
                    ..s
                },
                None => ArityState { pure, ..freeze(s) },
            }
        },
        CompiledOp::CallUserWord(_) | CompiledOp::CallQualifiedWord { .. } => ArityState {
            pure: false,
            ..freeze(s)
        },
        CompiledOp::FallbackToken(t) => {
            let pure = s.pure && !(match t {
                Token::Symbol(sym) => side_effecting_spec(spec_to_uppercase(sym@)),
                _ => false,
            });
            ArityState { pure, ..freeze(s) }
        },
        CompiledOp::CondDispatch(_) => freeze(s),
        _ => s,
    }
}

/// The operation has an effect the analysis cannot see through: a builtin
/// the purity table lists as impure or of unknown purity, a call of a user
/// or qualified word, a code block naming an impure builtin, or a raw
/// symbol naming one.
pub open spec fn op_taints(op: CompiledOp) -> bool {
    match op {
        CompiledOp::CallBuiltin(n) => purity_spec(n@) == Some(Purity::Impure) || purity_spec(n@) == Some(Purity::Unknown),
        CompiledOp::CallUserWord(_) | CompiledOp::CallQualifiedWord { .. } => true,
        CompiledOp::PushCodeBlock(t) => !block_tokens_pure(t@),
        CompiledOp::FallbackToken(Token::Symbol(sym)) => side_effecting_spec(spec_to_uppercase(sym@)),
        _ => false,
    }
}

/// A step keeps the walk pure exactly when the walk was pure and the
/// operation does not taint it.
proof fn lemma_step_purity(s: ArityState, op: CompiledOp)
    ensures
        arity_step(s, op).pure == (s.pure && !op_taints(op)),
{
    if let CompiledOp::CallBuiltin(n) = op {
        assert(side_effecting_spec(n@) == (purity_spec(n@) == Some(Purity::Impure) || purity_spec(n@) == Some(Purity::Unknown)))
            by {
            if let Some(p) = purity_spec(n@) {
                assert(p == Purity::Pure || p == Purity::Impure || p == Purity::Unknown);
            }
        }
    }
}

/// A plan is reported pure exactly when none of its operations taints it:
/// one impure (or unknown-purity) builtin, user or qualified word, impure
/// code block or impure raw symbol anywhere makes it side-effecting.
pub proof fn law_effects_make_a_plan_side_effecting(ops: Seq<CompiledOp>)
    ensures
        (finished_purity(arity_run(ops)) == QuantizedPurity::Pure) == (forall|k: int|
            0 <= k < ops.len() ==> !#[trigger] op_taints(ops[k])),
        (exists|k: int| 0 <= k < ops.len() && #[trigger] op_taints(ops[k])) ==> finished_purity(arity_run(ops))
            == QuantizedPurity::SideEffecting,
    decreases ops.len(),
{
    if ops.len() > 0 {
        let init = ops.drop_last();
        law_effects_make_a_plan_side_effecting(init);
        lemma_step_purity(arity_run(init), ops.last());
        if forall|k: int| 0 <= k < ops.len() ==> !#[trigger] op_taints(ops[k]) {
            assert forall|k: int| 0 <= k < init.len() implies !#[trigger] op_taints(init[k]) by {
                assert(init[k] == ops[k]);
            }
            assert(!op_taints(ops[ops.len() - 1]));
        } else {
            let k = choose|k: int| 0 <= k < ops.len() && #[trigger] op_taints(ops[k]);
            if k < ops.len() - 1 {
                assert(init[k] == ops[k]);
                assert(op_taints(init[k]));
            }
        }
    }
}

pub open spec fn arity_run(ops: Seq<CompiledOp>) -> ArityState
    decreases ops.len(),
{
    if ops.len() == 0 {
        initial_arity_state()
    } else {
        arity_step(arity_run(ops.drop_last()), ops.last())
    }
}

/// The dependency names a plan mentions, in order (`NS@WORD` for a qualified
/// word).
pub open spec fn dependency_names(ops: Seq<CompiledOp>) -> Seq<Seq<char>>
    decreases ops.len(),
{
    if ops.len() == 0 {
        Seq::empty()
    } else {
        let prev = dependency_names(ops.drop_last());
        match ops.last() {
            CompiledOp::CallUserWord(n) => prev.push(n@),
            CompiledOp::CallQualifiedWord { namespace, word } => prev.push(namespace@ + "@"@ + word@),
            _ => prev,
        }
    }
}

/// The arities a finished walk reports.
pub open spec fn finished_arities(s: ArityState) -> (QuantizedArity, QuantizedArity) {
    if s.all_known {
        (
            QuantizedArity::Fixed(
                if s.min < 0 {
                    (-s.min) as usize
                } else {
                    0
                },
            ),
            QuantizedArity::Fixed((s.cur - s.min) as usize),
        )
    } else {
        (
            match s.min_at_first_unknown {
                Some(m) => if m < 0 {
                    QuantizedArity::Fixed((-m) as usize)
                } else {
                    QuantizedArity::Variable
                },
                None => QuantizedArity::Variable,
            },
            QuantizedArity::Variable,
        )
    }
}

pub open spec fn finished_purity(s: ArityState) -> QuantizedPurity {
    if s.pure {
        QuantizedPurity::Pure
    } else {
        QuantizedPurity::SideEffecting
    }
}

fn block_is_pure(t: &Vec<Token>) -> (r: bool)
    ensures
        r == block_tokens_pure(t@),
{
    let mut i: usize = 0;
    while i < t.len()
        invariant
            0 <= i <= t@.len(),
            forall|k: int| 0 <= k < i ==> !token_is_impure(#[trigger] t@[k]),
        decreases t@.len() - i,
    {
        if token_is_impure_builtin(&t[i]) {
            return false;
        }
        i = i + 1;
    }
    true
}

fn is_side_effecting_builtin(name: &str) -> (r: bool)
    ensures
        r == side_effecting_spec(name@),
{
    match purity_by_name(name) {
        Some(p) => p != Purity::Pure,
        None => false,
    }
}

pub struct ExecArity {
    pub cur: i64,
    pub min: i64,
    pub min_at_first_unknown: Option<i64>,
    pub all_known: bool,
    pub pure: bool,
}

pub open spec fn exec_arity_view(e: ExecArity) -> ArityState {
    ArityState {
        cur: e.cur as int,
        min: e.min as int,
        min_at_first_unknown: match e.min_at_first_unknown {
            Some(m) => Some(m as int),
            None => None,
        },
        all_known: e.all_known,
        pure: e.pure,
    }
}

proof fn lemma_arity_bounds(ops: Seq<CompiledOp>)
    ensures
        -2 * (ops.len() as int) <= arity_run(ops).cur <= ops.len(),
        -2 * (ops.len() as int) <= arity_run(ops).min <= 0,
        arity_run(ops).min_at_first_unknown matches Some(m) ==> -2 * (ops.len() as int) <= m
            <= 0,
    decreases ops.len(),
{
    if ops.len() > 0 {
        lemma_arity_bounds(ops.drop_last());
    }
}

fn arity_step_exec(s: ExecArity, op: &CompiledOp, deps: &mut Vec<String>) -> (r: ExecArity)
    requires
        -0x2000_0000_0000_0000 <= s.cur <= 0x2000_0000_0000_0000,
        -0x2000_0000_0000_0000 <= s.min <= 0,
    ensures
        exec_arity_view(r) == arity_step(exec_arity_view(s), *op),
        final(deps)@.len() >= old(deps)@.len(),
        ({
            let before = old(deps)@.map_values(|x: String| x@);
            let after = final(deps)@.map_values(|x: String| x@);
            match *op {
                CompiledOp::CallUserWord(n) => after == before.push(n@),
                CompiledOp::CallQualifiedWord { namespace, word } => after == before.push(
                    namespace@ + "@"@ + word@,
                ),
                _ => after == before,
            }
        }),
{
    let ghost before = deps@.map_values(|x: String| x@);
    let frozen = ExecArity {
        cur: s.cur,
        min: s.min,
        min_at_first_unknown: if s.min_at_first_unknown.is_none() {
            Some(s.min)
        } else {
            s.min_at_first_unknown
        },
        all_known: false,
        pure: s.pure,
    };
    let r = match op {
        CompiledOp::PushLiteral(_) | CompiledOp::PushVectorLiteral(_) => ExecArity {
            cur: s.cur + 1,
            ..s
        },
        CompiledOp::PushCodeBlock(t) => ExecArity {
            cur: s.cur + 1,
            pure: s.pure && block_is_pure(t),
            ..s
        },
        CompiledOp::CallBuiltin(name) => {
            let pure = s.pure && !is_side_effecting_builtin(name.as_str());
            match builtin_arity(name.as_str()) {
                Some((i, o)) => {
                    let dipped = s.cur - i as i64;
                    ExecArity {
                        cur: dipped + o as i64,
                        min: if dipped < s.min {
                            dipped
                        } else {
                            s.min
                        },
                        pure,
                        ..s
                    }
                },
                None => ExecArity { pure, ..frozen },
            }
        },
        CompiledOp::CallUserWord(name) => {
            deps.push(copy_string(name));
            ExecArity { pure: false, ..frozen }
        },
        CompiledOp::CallQualifiedWord { namespace, word } => {
            let mut q = copy_string(namespace);
            q.append("@");
            q.append(word.as_str());
            deps.push(q);
            ExecArity { pure: false, ..frozen }
        },
        CompiledOp::FallbackToken(t) => {
            let effect = match t {
                Token::Symbol(sym) => {
                    let canonical = to_uppercase(sym.as_str());
                    is_side_effecting_builtin(canonical.as_str())
                },
                _ => false,
            };
            ExecArity { pure: s.pure && !effect, ..frozen }
        },
        CompiledOp::CondDispatch(_) => frozen,
        _ => s,
    };
    proof {
        assert(deps@.map_values(|x: String| x@) =~= match *op {
            CompiledOp::CallUserWord(n) => before.push(n@),
            CompiledOp::CallQualifiedWord { namespace, word } => before.push(
                namespace@ + "@"@ + word@,
            ),
            _ => before,
        });
    }
    r
}

/// Walk a plan's operations and report its input arity, output arity,
/// purity and the dependency names it mentions.
pub fn analyze_compiled_plan(plan: &CompiledPlan) -> (r: (
    QuantizedArity,
    QuantizedArity,
    QuantizedPurity,
    Vec<String>,
))
    requires
        plan_ops(plan.lines@).len() <= 0x1000_0000_0000_0000,
    ensures
        (r.0, r.1) == finished_arities(arity_run(plan_ops(plan.lines@))),
        r.2 == finished_purity(arity_run(plan_ops(plan.lines@))),
        (exists|k: int| 0 <= k < plan_ops(plan.lines@).len() && #[trigger] op_taints(plan_ops(plan.lines@)[k]))
            ==> r.2 == QuantizedPurity::SideEffecting,
        (r.2 == QuantizedPurity::Pure) == (forall|k: int|
            0 <= k < plan_ops(plan.lines@).len() ==> !#[trigger] op_taints(plan_ops(plan.lines@)[k])),
        r.3@.map_values(|x: String| x@) == dependency_names(plan_ops(plan.lines@)),
{
    let mut state = ExecArity {
        cur: 0,
        min: 0,
        min_at_first_unknown: None,
        all_known: true,
        pure: true,
    };
    let mut deps: Vec<String> = Vec::new();
    let mut li: usize = 0;
    proof {
        assert(plan.lines@.subrange(0, 0) =~= Seq::<CompiledLine>::empty());
        assert(deps@.map_values(|x: String| x@) =~= Seq::<Seq<char>>::empty());
    }
    while li < plan.lines.len()
        invariant
            0 <= li <= plan.lines@.len(),
            plan_ops(plan.lines@).len() <= 0x1000_0000_0000_0000,
            exec_arity_view(state) == arity_run(plan_ops(plan.lines@.subrange(0, li as int))),
            deps@.map_values(|x: String| x@) == dependency_names(
                plan_ops(plan.lines@.subrange(0, li as int)),
            ),
            plan_ops(plan.lines@.subrange(0, li as int)).len() <= plan_ops(plan.lines@).len(),
        decreases plan.lines@.len() - li,
    {
        let line = &plan.lines[li];
        let ghost prefix = plan_ops(plan.lines@.subrange(0, li as int));
        proof {
            lemma_plan_ops_prefix(plan.lines@, li as int);
        }
        let mut oi: usize = 0;
        proof {
            assert(prefix + line.ops@.subrange(0, 0) =~= prefix);
        }
        while oi < line.ops.len()
            invariant
                0 <= oi <= line.ops@.len(),
                line == &plan.lines@[li as int],
                li < plan.lines@.len(),
                prefix.len() + line.ops@.len() <= plan_ops(plan.lines@).len(),
                plan_ops(plan.lines@).len() <= 0x1000_0000_0000_0000,
                exec_arity_view(state) == arity_run(prefix + line.ops@.subrange(0, oi as int)),
                deps@.map_values(|x: String| x@) == dependency_names(
                    prefix + line.ops@.subrange(0, oi as int),
                ),
            decreases line.ops@.len() - oi,
        {
            let ghost cur_ops = prefix + line.ops@.subrange(0, oi as int);
            proof {
                lemma_arity_bounds(cur_ops);
            }
            state = arity_step_exec(state, &line.ops[oi], &mut deps);
            proof {
                let next_ops = prefix + line.ops@.subrange(0, oi + 1);
                assert(next_ops.drop_last() =~= cur_ops);
                assert(next_ops.last() == line.ops@[oi as int]);
            }
            oi = oi + 1;
        }
        proof {
            assert(line.ops@.subrange(0, line.ops@.len() as int) =~= line.ops@);
            assert(plan.lines@.subrange(0, li + 1).drop_last() =~= plan.lines@.subrange(
                0,
                li as int,
            ));
            lemma_plan_ops_prefix(plan.lines@, li + 1);
        }
        li = li + 1;
    }
    proof {
        assert(plan.lines@.subrange(0, plan.lines@.len() as int) =~= plan.lines@);
        lemma_arity_bounds(plan_ops(plan.lines@));
        law_effects_make_a_plan_side_effecting(plan_ops(plan.lines@));
    }
    let (input, output) = if state.all_known {
        (
            QuantizedArity::Fixed(
                if state.min < 0 {
                    (-state.min) as usize
                } else {
                    0
                },
            ),
            QuantizedArity::Fixed((state.cur - state.min) as usize),
        )
    } else {
        (
            match state.min_at_first_unknown {
                Some(m) => if m < 0 {
                    QuantizedArity::Fixed((-m) as usize)
                } else {
                    QuantizedArity::Variable
                },
                None => QuantizedArity::Variable,
            },
            QuantizedArity::Variable,
        )
    };
    let purity = if state.pure {
        QuantizedPurity::Pure
    } else {
        QuantizedPurity::SideEffecting
    };
    (input, output, purity, deps)
}

proof fn lemma_plan_ops_prefix(lines: Seq<CompiledLine>, k: int)
    requires
        0 <= k <= lines.len(),
    ensures
        k < lines.len() ==> plan_ops(lines.subrange(0, k + 1)) == plan_ops(lines.subrange(0, k))
            + lines[k].ops@,
        plan_ops(lines.subrange(0, k)).len() <= plan_ops(lines).len(),
        k < lines.len() ==> plan_ops(lines.subrange(0, k)).len() + lines[k].ops@.len() <= plan_ops(
            lines,
        ).len(),
    decreases lines.len() - k,
{
    if k < lines.len() {
        assert(lines.subrange(0, k + 1).drop_last() =~= lines.subrange(0, k));
        lemma_plan_ops_prefix(lines, k + 1);
    } else {
        assert(lines.subrange(0, k) =~= lines);
    }
}

// ── Kernel classification ────────────────────────────────────────────────────
pub open spec fn is_const_token(t: Token) -> bool {
    match t {
        Token::Number(_) | Token::String(_) => true,
        Token::Symbol(s) => s@ == "TRUE"@ || s@ == "FALSE"@,
        _ => false,
    }
}

/// `[ c ] op` with a constant `c`.
pub open spec fn const_vector_pattern(t: Seq<Token>, op: Seq<char>) -> bool {
    &&& t.len() == 4
    &&& t[0] is VectorStart
    &&& is_const_token(t[1])
    &&& t[2] is VectorEnd
    &&& (t[3] matches Token::Symbol(s) && s@ == op)
}

pub open spec fn map_ops() -> Seq<&'static str> {
    seq!["+", "-", "*", "/", "MOD", "=", "<"]
}

pub open spec fn kernel_kind_spec(t: Seq<Token>, purity: QuantizedPurity) -> KernelKind {
    if purity != QuantizedPurity::Pure {
        KernelKind::GenericCompiled
    } else if exists|i: int| 0 <= i < 7 && #[trigger] const_vector_pattern(t, map_ops()[i]@) {
        KernelKind::MapUnaryPure
    } else if t.len() == 1 && t[0] is Symbol {
        let s = t[0]->Symbol_0@;
        if s == "NOT"@ {
            KernelKind::PredicateUnaryPure
        } else if s == "ABS"@ || s == "NEG"@ {
            KernelKind::MapUnaryPure
        } else if s == "+"@ || s == "-"@ || s == "*"@ || s == "/"@ || s == "MOD"@ {
            KernelKind::FoldBinaryPure
        } else {
            KernelKind::GenericCompiled
        }
    } else {
        KernelKind::GenericCompiled
    }
}

fn is_const_vector_token(t: &Token) -> (r: bool)
    ensures
        r == is_const_token(*t),
{
    match t {
        Token::Number(_) | Token::String(_) => true,
        Token::Symbol(s) => str_equal(s.as_str(), "TRUE") || str_equal(s.as_str(), "FALSE"),
        _ => false,
    }
}

fn is_const_vector_pattern(t: &[Token], op: &str) -> (r: bool)
    ensures
        r == const_vector_pattern(t@, op@),
{
    if t.len() != 4 {
        return false;
    }
    matches!(t[0], Token::VectorStart) && is_const_vector_token(&t[1]) && matches!(
        t[2],
        Token::VectorEnd
    ) && match &t[3] {
        Token::Symbol(s) => str_equal(s.as_str(), op),
        _ => false,
    }
}

fn map_op_table() -> (r: Vec<&'static str>)
    ensures
        r@ == map_ops(),
{
    let r = vec!["+", "-", "*", "/", "MOD", "=", "<"];
    assert(r@ =~= map_ops());
    r
}

pub fn detect_kernel_kind(tokens: &[Token], purity: QuantizedPurity) -> (r: KernelKind)
    ensures
        r == kernel_kind_spec(tokens@, purity),
{
    if purity != QuantizedPurity::Pure {
        return KernelKind::GenericCompiled;
    }
    let table = map_op_table();
    let mut i: usize = 0;
    while i < 7
        invariant
            table@ == map_ops(),
            purity == QuantizedPurity::Pure,
            0 <= i <= 7,
            forall|k: int| 0 <= k < i ==> !const_vector_pattern(tokens@, #[trigger] map_ops()[k]@),
        decreases 7 - i,
    {
        if is_const_vector_pattern(tokens, table[i]) {
            proof {
                assert(const_vector_pattern(tokens@, map_ops()[i as int]@));
            }
            return KernelKind::MapUnaryPure;
        }
        i = i + 1;
    }
    if tokens.len() == 1 {
        if let Token::Symbol(sym) = &tokens[0] {
            let s = sym.as_str();
            return if str_equal(s, "NOT") {
                KernelKind::PredicateUnaryPure
            } else if str_equal(s, "ABS") || str_equal(s, "NEG") {
                KernelKind::MapUnaryPure
            } else if str_equal(s, "+") || str_equal(s, "-") || str_equal(s, "*") || str_equal(
                s,
                "/",
            ) || str_equal(s, "MOD") {
                KernelKind::FoldBinaryPure
            } else {
                KernelKind::GenericCompiled
            };
        }
    }
    KernelKind::GenericCompiled
}

/// The VTU hint a kernel classification and purity imply; side-effecting,
/// unknown-purity and non-quantizable blocks are never candidates.
pub open spec fn vtu_hint_spec(k: KernelKind, p: QuantizedPurity) -> (
    VtuSuitability,
    Seq<VtuBackendCandidate>,
    DataMovementClass,
    &'static str,
) {
    if p == QuantizedPurity::SideEffecting {
        (
            VtuSuitability::NotSuitable,
            seq![VtuBackendCandidate::FallbackInterpreter],
            DataMovementClass::Unknown,
            "side-effecting block",
        )
    } else if p == QuantizedPurity::Unknown {
        (VtuSuitability::NotSuitable, seq![VtuBackendCandidate::FallbackInterpreter], DataMovementClass::Unknown, "unknown purity")
    } else {
        match k {
            KernelKind::MapUnaryPure => (
                VtuSuitability::StrongCandidate,
                seq![
                    VtuBackendCandidate::CpuScalar,
                    VtuBackendCandidate::WasmSimd,
                    VtuBackendCandidate::DenseTensorLoop,
                    VtuBackendCandidate::SparseTensorLoop,
                    VtuBackendCandidate::NpuCandidate,
                    VtuBackendCandidate::GpuCandidate,
                ],
                DataMovementClass::Low,
                "elementwise pure map; embarrassingly parallel",
            ),
            KernelKind::PredicateUnaryPure => (
                VtuSuitability::StrongCandidate,
                seq![
                    VtuBackendCandidate::CpuScalar,
                    VtuBackendCandidate::WasmSimd,
                    VtuBackendCandidate::DenseTensorLoop,
                    VtuBackendCandidate::SparseTensorLoop,
                ],
                DataMovementClass::Low,
                "elementwise pure predicate",
            ),
            KernelKind::FoldBinaryPure => (
                VtuSuitability::WeakCandidate,
                seq![
                    VtuBackendCandidate::CpuScalar,
                    VtuBackendCandidate::DenseTensorLoop,
                    VtuBackendCandidate::SparseTensorLoop,
                ],
                DataMovementClass::Medium,
                "reduction may depend on order/associativity; parallelization requires Approx boundary",
            ),
            KernelKind::ScanBinaryPure => (
                VtuSuitability::WeakCandidate,
                seq![
                    VtuBackendCandidate::CpuScalar,
                    VtuBackendCandidate::DenseTensorLoop,
                    VtuBackendCandidate::SparseTensorLoop,
                ],
                DataMovementClass::Medium,
                "scan carries an accumulator; not embarrassingly parallel",
            ),
            KernelKind::GenericCompiled => if p == QuantizedPurity::Pure {
                (
                    VtuSuitability::WeakCandidate,
                    seq![VtuBackendCandidate::CpuScalar, VtuBackendCandidate::FallbackInterpreter],
                    DataMovementClass::Unknown,
                    "pure but unspecialized",
                )
            } else {
                (
                    VtuSuitability::NotSuitable,
                    seq![VtuBackendCandidate::FallbackInterpreter],
                    DataMovementClass::Unknown,
                    "unknown purity",
                )
            },
            KernelKind::NonQuantizable => (
                VtuSuitability::NotSuitable,
                seq![VtuBackendCandidate::FallbackInterpreter],
                DataMovementClass::Unknown,
                "non-quantizable block",
            ),
        }
    }
}

pub fn infer_vtu_hint(k: KernelKind, p: QuantizedPurity) -> (r: VtuHint)
    ensures
        (r.suitability, r.backend_candidates@, r.data_movement, r.reason) == vtu_hint_spec(k, p),
        p != QuantizedPurity::Pure || k == KernelKind::NonQuantizable ==> r.suitability == VtuSuitability::NotSuitable
            && r.backend_candidates@ == seq![VtuBackendCandidate::FallbackInterpreter],
{
    if p == QuantizedPurity::SideEffecting {
        return VtuHint::not_suitable("side-effecting block");
    }
    if p == QuantizedPurity::Unknown {
        return VtuHint::not_suitable("unknown purity");
    }
    let r = match k {
        KernelKind::MapUnaryPure => VtuHint {
            suitability: VtuSuitability::StrongCandidate,
            backend_candidates: vec![
                VtuBackendCandidate::CpuScalar,
                VtuBackendCandidate::WasmSimd,
                VtuBackendCandidate::DenseTensorLoop,
                VtuBackendCandidate::SparseTensorLoop,
                VtuBackendCandidate::NpuCandidate,
                VtuBackendCandidate::GpuCandidate,
            ],
            data_movement: DataMovementClass::Low,
            reason: "elementwise pure map; embarrassingly parallel",
        },
        KernelKind::PredicateUnaryPure => VtuHint {
            suitability: VtuSuitability::StrongCandidate,
            backend_candidates: vec![
                VtuBackendCandidate::CpuScalar,
                VtuBackendCandidate::WasmSimd,
                VtuBackendCandidate::DenseTensorLoop,
                VtuBackendCandidate::SparseTensorLoop,
            ],
            data_movement: DataMovementClass::Low,
            reason: "elementwise pure predicate",
        },
        KernelKind::FoldBinaryPure => VtuHint {
            suitability: VtuSuitability::WeakCandidate,
            backend_candidates: vec![
                VtuBackendCandidate::CpuScalar,
                VtuBackendCandidate::DenseTensorLoop,
                VtuBackendCandidate::SparseTensorLoop,
            ],
            data_movement: DataMovementClass::Medium,
            reason: "reduction may depend on order/associativity; parallelization requires Approx boundary",
        },
        KernelKind::ScanBinaryPure => VtuHint {
            suitability: VtuSuitability::WeakCandidate,
            backend_candidates: vec![
                VtuBackendCandidate::CpuScalar,
                VtuBackendCandidate::DenseTensorLoop,
                VtuBackendCandidate::SparseTensorLoop,
            ],
            data_movement: DataMovementClass::Medium,
            reason: "scan carries an accumulator; not embarrassingly parallel",
        },
        KernelKind::GenericCompiled => if p == QuantizedPurity::Pure {
            VtuHint {
                suitability: VtuSuitability::WeakCandidate,
                backend_candidates: vec![
                    VtuBackendCandidate::CpuScalar,
                    VtuBackendCandidate::FallbackInterpreter,
                ],
                data_movement: DataMovementClass::Unknown,
                reason: "pure but unspecialized",
            }
        } else {
            VtuHint::not_suitable("unknown purity")
        },
        KernelKind::NonQuantizable => VtuHint::not_suitable("non-quantizable block"),
    };
    proof {
        let e = vtu_hint_spec(k, p);
        assert(r.backend_candidates@ =~= e.1);
    }
    r
}

/// The name a kernel kind is written with in a fast-path label.
pub open spec fn kind_name(k: KernelKind) -> Seq<char> {
    match k {
        KernelKind::MapUnaryPure => "MapUnaryPure"@,
        KernelKind::PredicateUnaryPure => "PredicateUnaryPure"@,
        KernelKind::FoldBinaryPure => "FoldBinaryPure"@,
        KernelKind::ScanBinaryPure => "ScanBinaryPure"@,
        KernelKind::GenericCompiled => "GenericCompiled"@,
        KernelKind::NonQuantizable => "NonQuantizable"@,
    }
}

/// An arity as a fast-path label writes it: `Fixed(<n>)` or `Variable`.
pub open spec fn arity_text(a: QuantizedArity) -> Seq<char> {
    match a {
        QuantizedArity::Fixed(n) => "Fixed("@ + decimal_digits(n as nat) + ")"@,
        QuantizedArity::Variable => "Variable"@,
    }
}

/// The label of a specialised fast path, `kernel::<kind>::in=<arity>::out=<arity>`.
pub open spec fn fast_path_label_spec(k: KernelKind, i: QuantizedArity, o: QuantizedArity) -> Seq<char> {
    "kernel::"@ + kind_name(k) + "::in="@ + arity_text(i) + "::out="@ + arity_text(o)
}

fn kind_name_str(k: KernelKind) -> (r: &'static str)
    ensures
        r@ == kind_name(k),
{
    match k {
        KernelKind::MapUnaryPure => "MapUnaryPure",
        KernelKind::PredicateUnaryPure => "PredicateUnaryPure",
        KernelKind::FoldBinaryPure => "FoldBinaryPure",
        KernelKind::ScanBinaryPure => "ScanBinaryPure",
        KernelKind::GenericCompiled => "GenericCompiled",
        KernelKind::NonQuantizable => "NonQuantizable",
    }
}

fn append_arity(s: &mut String, a: QuantizedArity)
    ensures
        final(s)@ == old(s)@ + arity_text(a),
{
    match a {
        QuantizedArity::Fixed(n) => {
            s.append("Fixed(");
            let d = decimal_text(n);
            s.append(d.as_str());
            s.append(")");
        },
        QuantizedArity::Variable => {
            s.append("Variable");
        },
    }
}

fn fast_path_label(k: KernelKind, i: QuantizedArity, o: QuantizedArity) -> (r: String)
    ensures
        r@ == fast_path_label_spec(k, i, o),
{
    let mut s = String::from_str("kernel::");
    s.append(kind_name_str(k));
    s.append("::in=");
    append_arity(&mut s, i);
    s.append("::out=");
    append_arity(&mut s, o);
    s
}

/// The metrics after a block is built: the build count, the VTU candidate
/// or rejection count, and the fusion-candidate count when `fusion`.
pub open spec fn metrics_after_build(m: RuntimeMetrics, candidate: bool, fusion: bool) -> RuntimeMetrics {
    RuntimeMetrics {
        quantized_block_build_count: bumped(m.quantized_block_build_count),
        vtu_candidate_block_count: if candidate {
            bumped(m.vtu_candidate_block_count)
        } else {
            m.vtu_candidate_block_count
        },
        vtu_rejected_block_count: if candidate {
            m.vtu_rejected_block_count
        } else {
            bumped(m.vtu_rejected_block_count)
        },
        vtu_fusion_candidate_count: if fusion {
            bumped(m.vtu_fusion_candidate_count)
        } else {
            m.vtu_fusion_candidate_count
        },
        ..m
    }
}

/// Build the quantized form of a block from its compiled plan: the analysis,
/// the kernel classification, the guard under the current epochs and the VTU
/// hint. `None` when the block is not quantizable. Building a block advances
/// the execution epoch and the build counter, and counts the VTU
/// classification.
pub fn quantize_compiled_block(tokens: &[Token], plan: CompiledPlan, interp: &mut Interpreter) -> (r:
    Option<QuantizedBlock>)
    requires
        plan_ops(plan.lines@).len() <= 0x1000_0000_0000_0000,
    ensures
        r is None <==> !quantizable_spec(tokens@),
        r is None ==> *final(interp) == *old(interp),
        r matches Some(qb) ==> ({
            let s = arity_run(plan_ops(plan.lines@));
            let purity = finished_purity(s);
            let kind = kernel_kind_spec(tokens@, purity);
            &&& (qb.input_arity, qb.output_arity) == finished_arities(s)
            &&& qb.purity == purity
            &&& qb.kernel_kind == kind
            &&& qb.dependency_words@.map_values(|x: String| x@) == dependency_names(
                plan_ops(plan.lines@),
            )
            &&& qb.captured_epoch.dictionary_epoch == old(interp).dictionary_epoch
            &&& qb.captured_epoch.module_epoch == old(interp).module_epoch
            &&& qb.captured_epoch.execution_epoch == bumped(old(interp).execution_epoch)
            &&& qb.guard_signature == (GuardSignature {
                dictionary_epoch: old(interp).dictionary_epoch,
                module_epoch: old(interp).module_epoch,
                kernel_kind: kind,
                purity,
            })
            &&& qb.eligible_for_cache == (purity == QuantizedPurity::Pure)
            &&& qb.can_fuse == (purity == QuantizedPurity::Pure)
            &&& qb.can_short_circuit == (purity == QuantizedPurity::Pure)
            &&& qb.eligible_for_fusion == (kind == KernelKind::MapUnaryPure || kind
                == KernelKind::PredicateUnaryPure)
            &&& (qb.vtu_hint.suitability, qb.vtu_hint.backend_candidates@, qb.vtu_hint.data_movement,
            qb.vtu_hint.reason) == vtu_hint_spec(kind, purity)
            &&& (kind == KernelKind::GenericCompiled || kind == KernelKind::NonQuantizable) ==> qb.fast_path_id is None
            &&& !(kind == KernelKind::GenericCompiled || kind == KernelKind::NonQuantizable) ==> (qb.fast_path_id matches Some(id) && id@ == fast_path_label_spec(kind, qb.input_arity, qb.output_arity))
            &&& *final(interp) == (Interpreter {
                execution_epoch: bumped(old(interp).execution_epoch),
                runtime_metrics: metrics_after_build(
                    old(interp).runtime_metrics,
                    qb.vtu_hint.suitability != VtuSuitability::NotSuitable,
                    qb.eligible_for_fusion || purity == QuantizedPurity::Pure,
                ),
                ..*old(interp)
            })
            &&& *qb.compiled_plan == plan
            &&& ops_view(qb.lowered_kernel_ir@) == ops_view(plan_ops(plan.lines@))
        }),
{
    if !is_quantizable_block(tokens) {
        return None;
    }
    interp.execution_epoch = bump(interp.execution_epoch);
    interp.runtime_metrics.quantized_block_build_count = bump(
        interp.runtime_metrics.quantized_block_build_count,
    );
    let (input_arity, output_arity, purity, dependency_words) = analyze_compiled_plan(&plan);
    let kernel_kind = detect_kernel_kind(tokens, purity);
    let pure = purity == QuantizedPurity::Pure;
    let captured_epoch = EpochSnapshot {
        dictionary_epoch: interp.dictionary_epoch,
        module_epoch: interp.module_epoch,
        execution_epoch: interp.execution_epoch,
    };
    let fast_path_id = match kernel_kind {
        KernelKind::GenericCompiled | KernelKind::NonQuantizable => None,
        _ => Some(fast_path_label(kernel_kind, input_arity, output_arity)),
    };
    let guard_signature = GuardSignature {
        dictionary_epoch: captured_epoch.dictionary_epoch,
        module_epoch: captured_epoch.module_epoch,
        kernel_kind,
        purity,
    };
    let eligible_for_fusion = match kernel_kind {
        KernelKind::MapUnaryPure | KernelKind::PredicateUnaryPure => true,
        _ => false,
    };
    let lowered_kernel_ir = flatten_plan(&plan);
    let vtu_hint = infer_vtu_hint(kernel_kind, purity);
    if vtu_hint.is_candidate() {
        interp.runtime_metrics.vtu_candidate_block_count = bump(
            interp.runtime_metrics.vtu_candidate_block_count,
        );
    } else {
        interp.runtime_metrics.vtu_rejected_block_count = bump(
            interp.runtime_metrics.vtu_rejected_block_count,
        );
    }
    if eligible_for_fusion || pure {
        interp.runtime_metrics.vtu_fusion_candidate_count = bump(
            interp.runtime_metrics.vtu_fusion_candidate_count,
        );
    }
    Some(
        QuantizedBlock {
            compiled_plan: Rc::new(plan),
            captured_epoch,
            input_arity,
            output_arity,
            purity,
            kernel_kind,
            fast_path_id,
            guard_signature,
            lowered_kernel_ir,
            eligible_for_cache: pure,
            eligible_for_fusion,
            can_fuse: pure,
            can_short_circuit: pure,
            dependency_words,
            vtu_hint,
        },
    )
}

} // verus!
