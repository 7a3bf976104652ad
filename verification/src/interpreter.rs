//! The interpreter state the words in this library read and change: the data
//! stack, the consumption and target modes, the register, the epochs and the
//! runtime metrics.
use crate::receipt::{all_host_capabilities, HostCapability, ReceiptRecorder};
use crate::error::AjisaiError;
use crate::dictionary::{DependentsEntry, DictionaryDependencyInfo, ModuleDictionary, NamedWord, ResolveCacheEntry, UserDictionary};
use crate::imports::{ImportTable, ImportView};
use crate::value::{Value, ValueView};
use vstd::prelude::*;

verus! {

/// Whether a word consumes its operands (`EAT`, the default) or leaves them
/// under its result (`KEEP`).
#[derive(Clone, Copy, Debug, PartialEq, Eq, Structural)]
pub enum ConsumptionMode {
    Consume,
    Keep,
}

/// Whether a word applies to the stack top (the default) or to the stack.
#[derive(Clone, Copy, Debug, PartialEq, Eq, Structural)]
pub enum OperationTargetMode {
    StackTop,
    Stack,
}

/// Observational counters; none of them influences a result.
#[derive(Clone, Copy, Debug, Default, PartialEq, Eq, Structural)]
pub struct RuntimeMetrics {
    pub resolve_cache_hit_count: u64,
    pub resolve_cache_miss_count: u64,
    pub resolve_cache_invalidation_count: u64,
    pub redundancy_checkpoint_count: u64,
    pub redundancy_restore_count: u64,
    pub quantized_block_build_count: u64,
    pub vtu_tensor_flatten_count: u64,
    pub vtu_tensor_flattened_elements: u64,
    pub vtu_tensor_rebuild_count: u64,
    pub vtu_tensor_rebuilt_elements: u64,
    pub vtu_broadcast_count: u64,
    pub vtu_unary_flat_count: u64,
    pub vtu_allocated_elements: u64,
    pub vtu_same_shape_elementwise_count: u64,
    pub vtu_projected_broadcast_count: u64,
    pub vtu_simd_kernel_use_count: u64,
    pub vtu_sparse_candidate_count: u64,
    pub vtu_sparse_candidate_elements: u64,
    pub vtu_sparse_candidate_nonzero_elements: u64,
    pub vtu_sparse_skippable_zero_elements: u64,
    pub vtu_candidate_block_count: u64,
    pub vtu_rejected_block_count: u64,
    pub vtu_fusion_candidate_count: u64,
    pub vtu_bulk_kernel_use_count: u64,
}

/// `x + 1`, staying at the maximum once there.
pub open spec fn bumped(x: u64) -> u64 {
    if x < u64::MAX {
        (x + 1) as u64
    } else {
        x
    }
}

pub fn bump(x: u64) -> (r: u64)
    ensures
        r == bumped(x),
{
    if x < u64::MAX {
        x + 1
    } else {
        x
    }
}

/// The default execution-step budget of a new interpreter.
pub const DEFAULT_MAX_EXECUTION_STEPS: usize = 1_000_000;

pub struct Interpreter {
    pub stack: Vec<Value>,
    pub consumption_mode: ConsumptionMode,
    pub operation_target_mode: OperationTargetMode,
    pub register: Option<Value>,
    pub output_buffer: String,
    pub dictionary_epoch: u64,
    pub module_epoch: u64,
    pub execution_epoch: u64,
    pub runtime_metrics: RuntimeMetrics,
    pub receipt_recorder: ReceiptRecorder,
    /// Which modules are imported, and which of their words.
    pub import_table: ImportTable,
    pub granted_capabilities: Vec<HostCapability>,
    pub max_execution_steps: usize,
    pub execution_step_count: usize,
    /// The core words, under their bare names.
    pub core_vocabulary: Vec<NamedWord>,
    /// The dictionaries of the modules that have been loaded.
    pub module_vocabulary: Vec<ModuleDictionary>,
    pub user_dictionaries: Vec<UserDictionary>,
    /// The words of the `DEMO` user dictionary, as last synchronised.
    pub user_words: Vec<NamedWord>,
    pub resolve_cache: Vec<ResolveCacheEntry>,
    /// For each word, the qualified names of the words whose bodies call it.
    pub dependents: Vec<DependentsEntry>,
    /// For each dictionary, the dictionaries it calls into and is called from.
    pub dictionary_dependencies: Vec<DictionaryDependencyInfo>,
}

impl Interpreter {
    /// A fresh interpreter: empty stack, default modes, no register, no
    /// granted capabilities, all counters at zero.
    pub fn new() -> (r: Interpreter)
        ensures
            r.stack@.len() == 0,
            r.consumption_mode == ConsumptionMode::Consume,
            r.operation_target_mode == OperationTargetMode::StackTop,
            r.register is None,
            r.dictionary_epoch == 0,
            r.module_epoch == 0,
            r.runtime_metrics == RuntimeMetrics::spec_default(),
            r.receipt_recorder.wf(),
            !r.receipt_recorder.recording_spec(),
            r.granted_capabilities@.len() == 0,
            r.import_table.view() == Map::<Seq<char>, ImportView>::empty(),
            r.execution_step_count == 0,
            r.max_execution_steps == DEFAULT_MAX_EXECUTION_STEPS,
            r.core_vocabulary@.len() == 0,
            r.module_vocabulary@.len() == 0,
            r.user_dictionaries@.len() == 0,
            r.resolve_cache@.len() == 0,
            crate::resolve::cache_epochs_valid(&r),
    {
        Interpreter {
            stack: Vec::new(),
            consumption_mode: ConsumptionMode::Consume,
            operation_target_mode: OperationTargetMode::StackTop,
            register: None,
            output_buffer: String::new(),
            dictionary_epoch: 0,
            module_epoch: 0,
            execution_epoch: 0,
            runtime_metrics: RuntimeMetrics::zero(),
            receipt_recorder: ReceiptRecorder::new(),
            import_table: ImportTable::new(),
            granted_capabilities: Vec::new(),
            max_execution_steps: DEFAULT_MAX_EXECUTION_STEPS,
            execution_step_count: 0,
            core_vocabulary: Vec::new(),
            module_vocabulary: Vec::new(),
            user_dictionaries: Vec::new(),
            user_words: Vec::new(),
            resolve_cache: Vec::new(),
            dependents: Vec::new(),
            dictionary_dependencies: Vec::new(),
        }
    }

    pub fn get_stack(&self) -> (r: &Vec<Value>)
        ensures
            r == &self.stack,
    {
        &self.stack
    }

    pub fn runtime_metrics(&self) -> (r: &RuntimeMetrics)
        ensures
            *r == self.runtime_metrics,
    {
        &self.runtime_metrics
    }

    /// Enable or disable execution provenance recording.
    pub fn set_receipt_recording(&mut self, on: bool)
        ensures
            final(self).receipt_recorder.recording_spec() == on,
            final(self).receipt_recorder.names() == old(self).receipt_recorder.names(),
            final(self).receipt_recorder.entries() == old(self).receipt_recorder.entries(),
            final(self).receipt_recorder.capabilities() == old(
                self,
            ).receipt_recorder.capabilities(),
            final(self).receipt_recorder.next_order_spec() == old(
                self,
            ).receipt_recorder.next_order_spec(),
            final(self).stack == old(self).stack,
    {
        self.receipt_recorder.set_recording(on);
    }

    /// The provenance recorded so far.
    pub fn receipt_recorder(&self) -> (r: &ReceiptRecorder)
        ensures
            r == &self.receipt_recorder,
    {
        &self.receipt_recorder
    }

    /// The capabilities the host grants, in the stable listing order, each
    /// once.
    pub fn granted_host_capabilities(&self) -> (r: Vec<HostCapability>)
        ensures
            forall|c: HostCapability| #[trigger]
                r@.contains(c) <==> self.granted_capabilities@.contains(c),
            forall|i: int, j: int|
                0 <= i < j < r@.len() ==> crate::receipt::capability_rank(#[trigger] r@[i])
                    < crate::receipt::capability_rank(#[trigger] r@[j]),
    {
        let all = all_host_capabilities();
        let mut out: Vec<HostCapability> = Vec::new();
        let mut i: usize = 0;
        while i < all.len()
            invariant
                all@.len() == 8,
                forall|k: int| 0 <= k < 8 ==> crate::receipt::capability_rank(#[trigger] all@[k]) == k,
                0 <= i <= 8,
                forall|c: HostCapability| #[trigger]
                    out@.contains(c) <==> (self.granted_capabilities@.contains(c)
                        && crate::receipt::capability_rank(c) < i),
                forall|a: int, b: int|
                    0 <= a < b < out@.len() ==> crate::receipt::capability_rank(#[trigger] out@[a])
                        < crate::receipt::capability_rank(#[trigger] out@[b]),
                forall|a: int| 0 <= a < out@.len() ==> crate::receipt::capability_rank(#[trigger] out@[a]) < i,
            decreases 8 - i,
        {
            let cap = all[i];
            if self.has_capability(cap) {
                let ghost old_out = out@;
                out.push(cap);
                proof {
                    assert(out@ == old_out.push(cap));
                    assert forall|c: HostCapability| #[trigger] out@.contains(c) <==> (
                    self.granted_capabilities@.contains(c) && crate::receipt::capability_rank(c) < i + 1) by {
                        if c == cap {
                            assert(out@[old_out.len() as int] == c);
                        } else {
                            if crate::receipt::capability_rank(c) == i as int {
                                lemma_rank_injective(c, cap);
                            }
                            if out@.contains(c) {
                                let k = choose|k: int| 0 <= k < out@.len() && out@[k] == c;
                                assert(k < old_out.len());
                                assert(old_out[k] == c);
                            }
                            if old_out.contains(c) {
                                let k = choose|k: int| 0 <= k < old_out.len() && old_out[k] == c;
                                assert(out@[k] == c);
                            }
                        }
                    }
                }
            } else {
                proof {
                    assert forall|c: HostCapability| #[trigger] out@.contains(c) <==> (
                    self.granted_capabilities@.contains(c) && crate::receipt::capability_rank(c) < i + 1) by {
                        if crate::receipt::capability_rank(c) == i as int {
                            lemma_rank_injective(c, cap);
                        }
                    }
                }
            }
            i = i + 1;
        }
        out
    }

    /// The host grants `cap`.
    pub fn has_capability(&self, cap: HostCapability) -> (r: bool)
        ensures
            r == self.granted_capabilities@.contains(cap),
    {
        let mut i: usize = 0;
        while i < self.granted_capabilities.len()
            invariant
                0 <= i <= self.granted_capabilities@.len(),
                forall|k: int| 0 <= k < i ==> self.granted_capabilities@[k] != cap,
            decreases self.granted_capabilities@.len() - i,
        {
            if self.granted_capabilities[i] == cap {
                return true;
            }
            i = i + 1;
        }
        false
    }

    /// The execution step budget in force.
    pub fn max_execution_steps(&self) -> (r: usize)
        ensures
            r == self.max_execution_steps,
    {
        self.max_execution_steps
    }

    /// The steps consumed so far.
    pub fn execution_step_count(&self) -> (r: usize)
        ensures
            r == self.execution_step_count,
    {
        self.execution_step_count
    }

    /// Advance the dictionary epoch (a dictionary mutation happened).
    pub fn bump_dictionary_epoch(&mut self)
        ensures
            final(self).dictionary_epoch == bumped(old(self).dictionary_epoch),
            final(self).runtime_metrics.resolve_cache_invalidation_count == bumped(
                old(self).runtime_metrics.resolve_cache_invalidation_count,
            ),
            final(self).stack == old(self).stack,
            final(self).module_epoch == old(self).module_epoch,
            final(self).import_table == old(self).import_table,
            same_vocabulary(final(self), old(self)),
            crate::resolve::cache_epochs_valid(old(self)) ==> crate::resolve::cache_epochs_valid(final(self)),
    {
        self.dictionary_epoch = bump(self.dictionary_epoch);
        self.runtime_metrics.resolve_cache_invalidation_count = bump(
            self.runtime_metrics.resolve_cache_invalidation_count,
        );
    }

    /// Advance the module epoch (the imported vocabulary changed).
    pub fn bump_module_epoch(&mut self)
        ensures
            final(self).module_epoch == bumped(old(self).module_epoch),
            final(self).dictionary_epoch == old(self).dictionary_epoch,
            final(self).stack == old(self).stack,
            final(self).import_table == old(self).import_table,
            final(self).runtime_metrics == old(self).runtime_metrics,
            same_vocabulary(final(self), old(self)),
    {
        self.module_epoch = bump(self.module_epoch);
    }
}

proof fn lemma_rank_injective(a: HostCapability, b: HostCapability)
    requires
        crate::receipt::capability_rank(a) == crate::receipt::capability_rank(b),
    ensures
        a == b,
{
}

impl RuntimeMetrics {
    pub open spec fn spec_default() -> RuntimeMetrics {
        RuntimeMetrics {
            resolve_cache_hit_count: 0,
            resolve_cache_miss_count: 0,
            resolve_cache_invalidation_count: 0,
            redundancy_checkpoint_count: 0,
            redundancy_restore_count: 0,
            quantized_block_build_count: 0,
            vtu_tensor_flatten_count: 0,
            vtu_tensor_flattened_elements: 0,
            vtu_tensor_rebuild_count: 0,
            vtu_tensor_rebuilt_elements: 0,
            vtu_broadcast_count: 0,
            vtu_unary_flat_count: 0,
            vtu_allocated_elements: 0,
            vtu_same_shape_elementwise_count: 0,
            vtu_projected_broadcast_count: 0,
            vtu_simd_kernel_use_count: 0,
            vtu_sparse_candidate_count: 0,
            vtu_sparse_candidate_elements: 0,
            vtu_sparse_candidate_nonzero_elements: 0,
            vtu_sparse_skippable_zero_elements: 0,
            vtu_candidate_block_count: 0,
            vtu_rejected_block_count: 0,
            vtu_fusion_candidate_count: 0,
            vtu_bulk_kernel_use_count: 0,
        }
    }

    /// Every counter at zero.
    pub fn zero() -> (r: RuntimeMetrics)
        ensures
            r == RuntimeMetrics::spec_default(),
    {
        RuntimeMetrics {
            resolve_cache_hit_count: 0,
            resolve_cache_miss_count: 0,
            resolve_cache_invalidation_count: 0,
            redundancy_checkpoint_count: 0,
            redundancy_restore_count: 0,
            quantized_block_build_count: 0,
            vtu_tensor_flatten_count: 0,
            vtu_tensor_flattened_elements: 0,
            vtu_tensor_rebuild_count: 0,
            vtu_tensor_rebuilt_elements: 0,
            vtu_broadcast_count: 0,
            vtu_unary_flat_count: 0,
            vtu_allocated_elements: 0,
            vtu_same_shape_elementwise_count: 0,
            vtu_projected_broadcast_count: 0,
            vtu_simd_kernel_use_count: 0,
            vtu_sparse_candidate_count: 0,
            vtu_sparse_candidate_elements: 0,
            vtu_sparse_candidate_nonzero_elements: 0,
            vtu_sparse_skippable_zero_elements: 0,
            vtu_candidate_block_count: 0,
            vtu_rejected_block_count: 0,
            vtu_fusion_candidate_count: 0,
            vtu_bulk_kernel_use_count: 0,
        }
    }
}

/// Everything but the stack is the same in both states.
pub open spec fn same_except_stack(a: &Interpreter, b: &Interpreter) -> bool {
    &&& a.consumption_mode == b.consumption_mode
    &&& a.operation_target_mode == b.operation_target_mode
    &&& a.register == b.register
    &&& a.output_buffer == b.output_buffer
    &&& a.dictionary_epoch == b.dictionary_epoch
    &&& a.module_epoch == b.module_epoch
    &&& a.execution_epoch == b.execution_epoch
    &&& a.runtime_metrics == b.runtime_metrics
    &&& a.receipt_recorder == b.receipt_recorder
    &&& a.import_table == b.import_table
    &&& a.granted_capabilities == b.granted_capabilities
    &&& a.max_execution_steps == b.max_execution_steps
    &&& a.execution_step_count == b.execution_step_count
    &&& same_vocabulary(a, b)
}

/// The two states hold the same vocabulary, cache and dependency indexes.
pub open spec fn same_vocabulary(a: &Interpreter, b: &Interpreter) -> bool {
    &&& a.core_vocabulary == b.core_vocabulary
    &&& a.module_vocabulary == b.module_vocabulary
    &&& a.user_dictionaries == b.user_dictionaries
    &&& a.user_words == b.user_words
    &&& a.resolve_cache == b.resolve_cache
    &&& a.dependents == b.dependents
    &&& a.dictionary_dependencies == b.dictionary_dependencies
}

pub open spec fn keeping(i: &Interpreter) -> bool {
    i.consumption_mode == ConsumptionMode::Keep
}

/// Take a word's single operand: under `KEEP` a copy of the top, otherwise
/// the popped top.
pub fn take_operand(interp: &mut Interpreter) -> (r: Result<Value, AjisaiError>)
    ensures
        same_except_stack(final(interp), old(interp)),
        old(interp).stack@.len() == 0 ==> (r matches Err(AjisaiError::StackUnderflow))
            && final(interp).stack == old(interp).stack,
        old(interp).stack@.len() > 0 ==> (r matches Ok(v) && v@ == old(interp).stack@.last()@ && (
        if keeping(old(interp)) {
            final(interp).stack == old(interp).stack
        } else {
            final(interp).stack@ == old(interp).stack@.drop_last() && v == old(
                interp,
            ).stack@.last()
        })),
{
    if interp.stack.len() == 0 {
        return Err(AjisaiError::StackUnderflow);
    }
    if interp.consumption_mode == ConsumptionMode::Keep {
        let n = interp.stack.len();
        Ok(interp.stack[n - 1].duplicate())
    } else {
        let v = interp.stack.pop().unwrap();
        Ok(v)
    }
}

/// Put back an operand a failed word consumed (under `KEEP` it was never
/// taken).
pub fn restore_operand(interp: &mut Interpreter, value: Value)
    ensures
        same_except_stack(final(interp), old(interp)),
        keeping(old(interp)) ==> final(interp).stack == old(interp).stack,
        !keeping(old(interp)) ==> final(interp).stack@ == old(interp).stack@.push(value),
{
    if interp.consumption_mode != ConsumptionMode::Keep {
        interp.stack.push(value);
    }
}

/// Take a word's top `n` operands, bottom first: under `KEEP` copies with
/// the stack untouched, otherwise removed from the stack.
pub fn extract_operands(interp: &mut Interpreter, n: usize) -> (r: Result<Vec<Value>, AjisaiError>)
    ensures
        same_except_stack(final(interp), old(interp)),
        old(interp).stack@.len() < n ==> (r matches Err(AjisaiError::StackUnderflow))
            && final(interp).stack == old(interp).stack,
        old(interp).stack@.len() >= n ==> (r matches Ok(ops) && ops@.len() == n && (forall|i: int|
            0 <= i < n ==> (#[trigger] ops@[i])@ == old(interp).stack@[old(interp).stack@.len() - n
                + i]@) && (if keeping(old(interp)) {
            final(interp).stack == old(interp).stack
        } else {
            final(interp).stack@ == old(interp).stack@.subrange(
                0,
                old(interp).stack@.len() - n,
            ) && ops@ == old(interp).stack@.subrange(
                old(interp).stack@.len() - n,
                old(interp).stack@.len() as int,
            )
        })),
{
    let len = interp.stack.len();
    if len < n {
        return Err(AjisaiError::StackUnderflow);
    }
    if interp.consumption_mode == ConsumptionMode::Keep {
        let mut out: Vec<Value> = Vec::new();
        let mut i: usize = len - n;
        while i < len
            invariant
                len == interp.stack@.len(),
                len - n <= i <= len,
                out@.len() == i - (len - n),
                forall|k: int| 0 <= k < out@.len() ==> (#[trigger] out@[k])@ == interp.stack@[len - n + k]@,
            decreases len - i,
        {
            out.push(interp.stack[i].duplicate());
            i = i + 1;
        }
        Ok(out)
    } else {
        let out = interp.stack.split_off(len - n);
        Ok(out)
    }
}

/// The views of the top `n` values of a stack, bottom first.
pub open spec fn top_views(s: Seq<Value>, n: int) -> Seq<ValueView> {
    Seq::new(n as nat, |i: int| s[s.len() - n + i]@)
}

/// The stack a word leaves under its result once it has taken `n` operands:
/// the whole stack under `KEEP`, the stack without its top `n` otherwise.
pub open spec fn base_after(i: &Interpreter, n: int) -> Seq<Value> {
    if keeping(i) {
        i.stack@
    } else {
        i.stack@.subrange(0, i.stack@.len() - n)
    }
}

/// Put back the operands a failed word took, in order (under `KEEP` they
/// were never taken).
pub fn restore_operands(interp: &mut Interpreter, operands: Vec<Value>)
    ensures
        same_except_stack(final(interp), old(interp)),
        keeping(old(interp)) ==> final(interp).stack == old(interp).stack,
        !keeping(old(interp)) ==> final(interp).stack@ == old(interp).stack@ + operands@,
{
    if interp.consumption_mode != ConsumptionMode::Keep {
        let mut ops = operands;
        interp.stack.append(&mut ops);
    }
}

} // verus!
