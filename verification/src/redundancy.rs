//! Redundant-execution accounting (retry budget, cooldown, adaptive
//! demotion), the degradation policy a block's shape implies, deterministic
//! route selection from a block's VTU hint, and stack checkpoints.
use crate::interpreter::{bump, bumped, Interpreter};
use crate::quantized_block::{QuantizedArity, QuantizedPurity, VtuHint, VtuSuitability};
use crate::value::{copy_values, values_view, Value};
use vstd::prelude::*;

verus! {

/// Cost accounting for redundant execution attempts.
#[derive(Debug, Clone, Copy, PartialEq, Eq, Structural)]
pub struct RedundancyBudget {
    /// Maximum quantized-path attempts before a block is considered
    /// incompatible with quantized execution for the current epoch.
    pub max_quantized_attempts: u32,
    /// Epochs that must pass after a failure before the quantized path is
    /// tried again.
    pub cooldown_epochs: u64,
    /// Cumulative quantized failures at which a word is demoted.
    pub auto_degrade_threshold: u32,
}

impl Default for RedundancyBudget {
    fn default() -> (r: RedundancyBudget)
        ensures
            r == (RedundancyBudget {
                max_quantized_attempts: 3,
                cooldown_epochs: 2,
                auto_degrade_threshold: 5,
            }),
    {
        RedundancyBudget { max_quantized_attempts: 3, cooldown_epochs: 2, auto_degrade_threshold: 5 }
    }
}

/// How aggressively to attempt faster execution representations.
#[derive(Debug, Clone, Copy, PartialEq, Eq, Structural)]
pub enum DegradationPolicy {
    /// Quantized → Compiled → Plain.
    ThreeStage,
    /// Compiled → Plain.
    TwoStage,
    /// Plain only.
    PlainOnly,
}

/// Per-word accumulated failure history.
#[derive(Debug, Clone, Copy, Default, PartialEq, Eq, Structural)]
pub struct FailureHistory {
    pub quantized_failures: u32,
    pub compiled_failures: u32,
    /// Epoch of the most recent quantized failure (0: none recorded).
    pub last_quantized_failure_epoch: u64,
}

impl FailureHistory {
    /// Record a quantized-path failure at `current_epoch`.
    pub fn record_quantized_failure(&mut self, current_epoch: u64)
        requires
            old(self).quantized_failures < u32::MAX,
        ensures
            final(self).quantized_failures == old(self).quantized_failures + 1,
            final(self).last_quantized_failure_epoch == current_epoch,
            final(self).compiled_failures == old(self).compiled_failures,
    {
        self.quantized_failures = self.quantized_failures + 1;
        self.last_quantized_failure_epoch = current_epoch;
    }

    pub fn record_compiled_failure(&mut self)
        requires
            old(self).compiled_failures < u32::MAX,
        ensures
            final(self).compiled_failures == old(self).compiled_failures + 1,
            final(self).quantized_failures == old(self).quantized_failures,
            final(self).last_quantized_failure_epoch == old(self).last_quantized_failure_epoch,
    {
        self.compiled_failures = self.compiled_failures + 1;
    }

    /// The quantized path is inside its cooldown window: a failure was
    /// recorded and fewer than `cooldown_epochs` epochs have passed since
    /// (an epoch earlier than the failure counts as no time passed).
    pub fn quantized_is_cooling_down(&self, current_epoch: u64, budget: &RedundancyBudget) -> (r:
        bool)
        ensures
            r == (self.last_quantized_failure_epoch != 0 && (if current_epoch
                >= self.last_quantized_failure_epoch {
                current_epoch - self.last_quantized_failure_epoch
            } else {
                0
            }) < budget.cooldown_epochs),
    {
        if self.last_quantized_failure_epoch == 0 {
            return false;
        }
        let elapsed = if current_epoch >= self.last_quantized_failure_epoch {
            current_epoch - self.last_quantized_failure_epoch
        } else {
            0
        };
        elapsed < budget.cooldown_epochs
    }

    /// Cumulative quantized failures reached the demotion threshold.
    pub fn should_auto_degrade(&self, budget: &RedundancyBudget) -> (r: bool)
        ensures
            r == (self.quantized_failures >= budget.auto_degrade_threshold),
    {
        self.quantized_failures >= budget.auto_degrade_threshold
    }
}

/// The degradation policy a block's shape implies: side-effecting blocks run
/// plain only; a variable arity or an unknown purity skips the quantized
/// stage; fixed arities and a pure body allow all three stages.
pub open spec fn degradation_policy_spec(
    input: QuantizedArity,
    output: QuantizedArity,
    purity: QuantizedPurity,
) -> DegradationPolicy {
    if purity == QuantizedPurity::SideEffecting {
        DegradationPolicy::PlainOnly
    } else if input is Variable || output is Variable || purity == QuantizedPurity::Unknown {
        DegradationPolicy::TwoStage
    } else {
        DegradationPolicy::ThreeStage
    }
}

pub fn select_degradation_policy(
    input: QuantizedArity,
    output: QuantizedArity,
    purity: QuantizedPurity,
) -> (r: DegradationPolicy)
    ensures
        r == degradation_policy_spec(input, output, purity),
{
    if purity == QuantizedPurity::SideEffecting {
        return DegradationPolicy::PlainOnly;
    }
    match (input, output, purity) {
        (QuantizedArity::Fixed(_), QuantizedArity::Fixed(_), QuantizedPurity::Pure) => {
            DegradationPolicy::ThreeStage
        },
        _ => DegradationPolicy::TwoStage,
    }
}

/// A snapshot of the interpreter's stack taken before a single attempted
/// execution.
pub struct RedundancyCheckpoint {
    snapshot: Vec<Value>,
}

impl RedundancyCheckpoint {
    pub closed spec fn saved(&self) -> Seq<crate::value::ValueView> {
        values_view(self.snapshot@)
    }

    /// Capture the current stack.
    pub fn capture(interp: &Interpreter) -> (r: RedundancyCheckpoint)
        ensures
            r.saved() == values_view(interp.stack@),
    {
        RedundancyCheckpoint { snapshot: copy_values(&interp.stack) }
    }

    /// Put the captured stack back and count the restore. Epochs are not
    /// rolled back: dictionary mutations are irreversible.
    pub fn restore(&self, interp: &mut Interpreter)
        ensures
            values_view(final(interp).stack@) == self.saved(),
            final(interp).runtime_metrics.redundancy_restore_count == bumped(
                old(interp).runtime_metrics.redundancy_restore_count,
            ),
            final(interp).dictionary_epoch == old(interp).dictionary_epoch,
            final(interp).module_epoch == old(interp).module_epoch,
            final(interp).consumption_mode == old(interp).consumption_mode,
    {
        interp.stack = copy_values(&self.snapshot);
        interp.runtime_metrics.redundancy_restore_count = bump(
            interp.runtime_metrics.redundancy_restore_count,
        );
    }
}

#[derive(Debug, Clone, Copy, PartialEq, Eq, Structural)]
pub enum DeterministicExecutionRoute {
    /// The dense SIMD / structure-of-arrays path.
    SimdSoa,
    /// The plain scalar path.
    Plain,
}

/// The route a block's VTU hint selects: only a strong candidate takes the
/// SIMD/SoA route. History, budgets and cooldowns play no part.
pub fn select_deterministic_route(vtu_hint: &VtuHint) -> (r: DeterministicExecutionRoute)
    ensures
        r == (if vtu_hint.suitability == VtuSuitability::StrongCandidate {
            DeterministicExecutionRoute::SimdSoa
        } else {
            DeterministicExecutionRoute::Plain
        }),
{
    if vtu_hint.suitability == VtuSuitability::StrongCandidate {
        DeterministicExecutionRoute::SimdSoa
    } else {
        DeterministicExecutionRoute::Plain
    }
}

/// The cooldown window closes: once a failure was recorded at epoch `e`, the
/// quantized path is cooling down exactly at the epochs `e .. e + cooldown`.
pub proof fn law_cooldown_window(h: FailureHistory, budget: RedundancyBudget, epoch: u64)
    requires
        h.last_quantized_failure_epoch != 0,
        epoch >= h.last_quantized_failure_epoch,
    ensures
        (h.last_quantized_failure_epoch != 0 && (if epoch >= h.last_quantized_failure_epoch {
            epoch - h.last_quantized_failure_epoch
        } else {
            0
        }) < budget.cooldown_epochs) <==> epoch < h.last_quantized_failure_epoch
            + budget.cooldown_epochs,
{
}

/// A side-effecting block is never given a faster stage, whatever its
/// arities; a pure block with fixed arities always gets all three.
pub proof fn law_policy_by_purity(input: QuantizedArity, output: QuantizedArity)
    ensures
        degradation_policy_spec(input, output, QuantizedPurity::SideEffecting)
            == DegradationPolicy::PlainOnly,
        (input is Fixed && output is Fixed) ==> degradation_policy_spec(
            input,
            output,
            QuantizedPurity::Pure,
        ) == DegradationPolicy::ThreeStage,
{
}

} // verus!
