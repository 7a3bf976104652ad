//! Static mass conservation: an abstract interpretation of a compiled plan
//! that tracks the stack depth over the words whose arity is fixed, and
//! reports whether the flow, started on an empty stack, would read more
//! operands than it has. It stops at the first word whose arity it cannot
//! pin, and never runs anything.
use crate::plan::{builtin_arity, builtin_arity_spec, plan_ops, CompiledLine, CompiledOp, CompiledPlan};
use vstd::prelude::*;

verus! {

/// The result of the analysis, measured from an empty stack over the
/// analysed prefix of the flow.
#[derive(Clone, Copy, Debug, PartialEq, Eq, Structural)]
pub struct MassReport {
    /// The net change of stack depth.
    pub net_mass: i64,
    /// The lowest depth reached; below zero, the flow needs a stack of at
    /// least `-min_depth` values to run.
    pub min_depth: i64,
    /// Every word of the flow had a fixed arity; `false` once the analysis
    /// stopped at one that had not.
    pub all_known: bool,
}

impl MassReport {
    /// The flow, from an empty stack, reads more operands than it has.
    pub fn over_consumes_from_empty(&self) -> (r: bool)
        ensures
            r == (self.min_depth < 0),
    {
        self.min_depth < 0
    }
}

/// The abstract state: depth, lowest depth, whether every word so far was
/// known, and the pending target and consumption modifiers.
pub struct MassState {
    pub cur: int,
    pub min: int,
    pub known: bool,
    pub stack_target: bool,
    pub keep: bool,
}

pub open spec fn mass_start() -> MassState {
    MassState { cur: 0, min: 0, known: true, stack_target: false, keep: false }
}

/// The effect of one operation. A word with a fixed arity `(c, p)` reads
/// `c` operands (the depth dips by `c`), then pushes `p`, and under `KEEP`
/// also leaves its operands; the modifiers then reset. A word folding the
/// stack, a word with no fixed arity, a user or qualified word, a
/// conditional or a raw token stops the analysis, which then keeps its
/// state.
pub open spec fn mass_step(s: MassState, op: CompiledOp) -> MassState {
    if !s.known {
        s
    } else {
        match op {
            CompiledOp::PushLiteral(_) | CompiledOp::PushVectorLiteral(_) | CompiledOp::PushCodeBlock(
                _,
            ) => MassState { cur: s.cur + 1, ..s },
            CompiledOp::SetTargetModeStackTop => MassState { stack_target: false, ..s },
            CompiledOp::SetTargetModeStack => MassState { stack_target: true, ..s },
            CompiledOp::SetConsumptionConsume => MassState { keep: false, ..s },
            CompiledOp::SetConsumptionKeep => MassState { keep: true, ..s },
            CompiledOp::LineBreak | CompiledOp::BeginGuardedBlock => s,
            CompiledOp::CallBuiltin(name) => if s.stack_target {
                MassState { known: false, ..s }
            } else {
                match builtin_arity_spec(name@) {
                    Some((c, p)) => {
                        let dipped = s.cur - c;
                        MassState {
                            cur: dipped + p + (if s.keep {
                                c
                            } else {
                                0
                            }),
                            min: if dipped < s.min {
                                dipped
                            } else {
                                s.min
                            },
                            known: true,
                            stack_target: false,
                            keep: false,
                        }
                    },
                    None => MassState { known: false, ..s },
                }
            },
            _ => MassState { known: false, ..s },
        }
    }
}

/// The state after a sequence of operations.
pub open spec fn mass_run(ops: Seq<CompiledOp>) -> MassState
    decreases ops.len(),
{
    if ops.len() == 0 {
        mass_start()
    } else {
        mass_step(mass_run(ops.drop_last()), ops.last())
    }
}

/// The report the analysis of `ops` gives.
pub open spec fn mass_report_spec(ops: Seq<CompiledOp>) -> (int, int, bool) {
    let s = mass_run(ops);
    (s.cur, s.min, s.known)
}

/// The analysis never dips below, or rises above, twice the number of
/// operations read.
proof fn lemma_mass_bounds(ops: Seq<CompiledOp>)
    ensures
        -2 * ops.len() <= mass_run(ops).min <= 0,
        -2 * ops.len() <= mass_run(ops).cur <= 2 * ops.len(),
    decreases ops.len(),
{
    if ops.len() > 0 {
        lemma_mass_bounds(ops.drop_last());
        let s = mass_run(ops.drop_last());
        if let CompiledOp::CallBuiltin(name) = ops.last() {
            if builtin_arity_spec(name@) is Some {
                assert(builtin_arity_spec(name@) == Some((2int, 1int)) || builtin_arity_spec(name@) == Some((1int, 1int)));
            }
        }
    }
}

/// The lowest depth is never above zero (the start) nor above the final
/// depth: a flow ends no lower than the lowest point it passed.
pub proof fn law_min_depth_bounds(ops: Seq<CompiledOp>)
    ensures
        mass_run(ops).min <= 0,
        mass_run(ops).min <= mass_run(ops).cur,
    decreases ops.len(),
{
    if ops.len() > 0 {
        law_min_depth_bounds(ops.drop_last());
        let s = mass_run(ops.drop_last());
        if let CompiledOp::CallBuiltin(name) = ops.last() {
            if builtin_arity_spec(name@) is Some {
                assert(builtin_arity_spec(name@) == Some((2int, 1int)) || builtin_arity_spec(name@) == Some((1int, 1int)));
            }
        }
    }
}

/// The operation pushes one value: a literal, a vector literal or a code
/// block.
pub open spec fn is_push(op: CompiledOp) -> bool {
    op is PushLiteral || op is PushVectorLiteral || op is PushCodeBlock
}

/// A push raises the tracked depth by exactly one and leaves the lowest
/// depth and the knowledge of the flow as they were, whatever preceded it.
pub proof fn law_push_raises_depth(ops: Seq<CompiledOp>, op: CompiledOp)
    requires
        is_push(op),
        mass_run(ops).known,
    ensures
        mass_run(ops.push(op)).cur == mass_run(ops).cur + 1,
        mass_run(ops.push(op)).min == mass_run(ops).min,
        mass_run(ops.push(op)).known,
{
    assert(ops.push(op).drop_last() =~= ops);
    assert(ops.push(op).last() == op);
}

/// A flow made of pushes alone ends as many values above an empty stack as
/// it has operations, never reads below it, and is fully known.
pub proof fn law_pushes_only(ops: Seq<CompiledOp>)
    requires
        forall|i: int| 0 <= i < ops.len() ==> #[trigger] is_push(ops[i]),
    ensures
        mass_report_spec(ops) == (ops.len() as int, 0int, true),
    decreases ops.len(),
{
    if ops.len() > 0 {
        let init = ops.drop_last();
        assert forall|i: int| 0 <= i < init.len() implies #[trigger] is_push(init[i]) by {
            assert(init[i] == ops[i]);
        }
        law_pushes_only(init);
        assert(is_push(ops[ops.len() - 1]));
        assert(init.push(ops.last()) =~= ops);
        law_push_raises_depth(init, ops.last());
    }
}

/// Abstract-interpret `plan` against the fixed arities of the builtins.
pub fn validate_mass_conservation(plan: &CompiledPlan) -> (r: MassReport)
    requires
        plan_ops(plan.lines@).len() <= 0x1000_0000_0000_0000,
    ensures
        (r.net_mass as int, r.min_depth as int, r.all_known) == mass_report_spec(plan_ops(plan.lines@)),
        (forall|i: int| 0 <= i < plan_ops(plan.lines@).len() ==> #[trigger] is_push(plan_ops(plan.lines@)[i]))
            ==> r.net_mass == plan_ops(plan.lines@).len() && r.min_depth == 0 && r.all_known,
{
    let ghost all = plan_ops(plan.lines@);
    let mut cur: i64 = 0;
    let mut min: i64 = 0;
    let mut known = true;
    let mut stack_target = false;
    let mut keep = false;
    let mut li: usize = 0;
    proof {
        assert(plan.lines@.take(0) =~= Seq::<CompiledLine>::empty());
        lemma_plan_ops_prefix_len(plan.lines@, 0);
    }
    while li < plan.lines.len()
        invariant
            0 <= li <= plan.lines@.len(),
            all == plan_ops(plan.lines@),
            all.len() <= 0x1000_0000_0000_0000,
            plan_ops(plan.lines@.take(li as int)).len() <= all.len(),
            mass_run(plan_ops(plan.lines@.take(li as int))) == (MassState {
                cur: cur as int,
                min: min as int,
                known,
                stack_target,
                keep,
            }),
        decreases plan.lines@.len() - li,
    {
        let line = &plan.lines[li];
        let ghost prefix = plan_ops(plan.lines@.take(li as int));
        proof {
            assert(plan.lines@.take(li + 1).drop_last() =~= plan.lines@.take(li as int));
            assert(plan.lines@.take(li + 1).last() == plan.lines@[li as int]);
            lemma_plan_ops_prefix_len(plan.lines@, li + 1);
            assert(line.ops@ =~= plan.lines@[li as int].ops@);
        }
        let mut oi: usize = 0;
        proof {
            assert(prefix + line.ops@.take(0) =~= prefix);
        }
        while oi < line.ops.len()
            invariant
                0 <= oi <= line.ops@.len(),
                prefix.len() + line.ops@.len() <= 0x1000_0000_0000_0000,
                mass_run(prefix + line.ops@.take(oi as int)) == (MassState {
                    cur: cur as int,
                    min: min as int,
                    known,
                    stack_target,
                    keep,
                }),
            decreases line.ops@.len() - oi,
        {
            let ghost done = prefix + line.ops@.take(oi as int);
            proof {
                assert((prefix + line.ops@.take(oi + 1)).drop_last() =~= done);
                assert((prefix + line.ops@.take(oi + 1)).last() == line.ops@[oi as int]);
                lemma_mass_bounds(done);
            }
            if known {
                match &line.ops[oi] {
                    CompiledOp::PushLiteral(_) | CompiledOp::PushVectorLiteral(_) | CompiledOp::PushCodeBlock(_) => {
                        cur = cur + 1;
                    },
                    CompiledOp::SetTargetModeStackTop => {
                        stack_target = false;
                    },
                    CompiledOp::SetTargetModeStack => {
                        stack_target = true;
                    },
                    CompiledOp::SetConsumptionConsume => {
                        keep = false;
                    },
                    CompiledOp::SetConsumptionKeep => {
                        keep = true;
                    },
                    CompiledOp::LineBreak | CompiledOp::BeginGuardedBlock => {},
                    CompiledOp::CallBuiltin(name) => {
                        if stack_target {
                            known = false;
                        } else {
                            match builtin_arity(name.as_str()) {
                                Some((c, p)) => {
                                    proof {
                                        assert(builtin_arity_spec(name@) == Some((2int, 1int))
                                            || builtin_arity_spec(name@) == Some((1int, 1int)));
                                    }
                                    let dipped = cur - c as i64;
                                    if dipped < min {
                                        min = dipped;
                                    }
                                    cur = dipped + p as i64 + if keep {
                                        c as i64
                                    } else {
                                        0
                                    };
                                    stack_target = false;
                                    keep = false;
                                },
                                None => {
                                    known = false;
                                },
                            }
                        }
                    },
                    _ => {
                        known = false;
                    },
                }
            }
            oi = oi + 1;
        }
        proof {
            assert(line.ops@.take(oi as int) =~= line.ops@);
        }
        li = li + 1;
    }
    proof {
        assert(plan.lines@.take(li as int) =~= plan.lines@);
        if forall|i: int| 0 <= i < all.len() ==> #[trigger] is_push(all[i]) {
            law_pushes_only(all);
        }
    }
    MassReport { net_mass: cur, min_depth: min, all_known: known }
}

proof fn lemma_plan_ops_prefix_len(lines: Seq<CompiledLine>, k: int)
    requires
        0 <= k <= lines.len(),
    ensures
        plan_ops(lines.take(k)).len() <= plan_ops(lines).len(),
        k < lines.len() ==> plan_ops(lines.take(k)).len() + lines[k].ops@.len() <= plan_ops(lines).len(),
    decreases lines.len(),
{
    if k < lines.len() {
        assert(lines.drop_last().len() == lines.len() - 1);
        if k < lines.len() - 1 {
            lemma_plan_ops_prefix_len(lines.drop_last(), k);
            assert(lines.drop_last().take(k) =~= lines.take(k));
            assert(lines.drop_last()[k] == lines[k]);
        } else {
            assert(lines.drop_last() =~= lines.take(k));
        }
    } else {
        assert(lines.take(k) =~= lines);
    }
}

} // verus!
