//! Compiled plans (the straight-line form of a word body) and the static word
//! tables the plan analyses consult: the fixed stack arity of the well-known
//! pure builtins and the purity class of the builtins.
use crate::text::str_equal;
use crate::value::{copy_string, copy_token, copy_tokens, copy_values, token_view, tokens_view, values_view, Token, TokenView, Value, ValueView};
use vstd::prelude::*;

verus! {

/// One operation of a compiled word body.
#[derive(Debug)]
pub enum CompiledOp {
    PushLiteral(Value),
    PushVectorLiteral(Vec<Value>),
    PushCodeBlock(Vec<Token>),
    SetTargetModeStackTop,
    SetTargetModeStack,
    SetConsumptionConsume,
    SetConsumptionKeep,
    LineBreak,
    BeginGuardedBlock,
    CallBuiltin(String),
    CallUserWord(String),
    CallQualifiedWord { namespace: String, word: String },
    CondDispatch(usize),
    FallbackToken(Token),
}

#[derive(Debug)]
pub struct CompiledLine {
    pub ops: Vec<CompiledOp>,
}

#[derive(Debug)]
pub struct CompiledPlan {
    pub lines: Vec<CompiledLine>,
}

/// The operations of a plan, line after line.
pub open spec fn plan_ops(lines: Seq<CompiledLine>) -> Seq<CompiledOp>
    decreases lines.len(),
{
    if lines.len() == 0 {
        Seq::empty()
    } else {
        plan_ops(lines.drop_last()) + lines.last().ops@
    }
}

/// What an operation denotes, by the views of what it holds.
pub enum OpView {
    PushLiteral(ValueView),
    PushVectorLiteral(Seq<ValueView>),
    PushCodeBlock(Seq<TokenView>),
    SetTargetModeStackTop,
    SetTargetModeStack,
    SetConsumptionConsume,
    SetConsumptionKeep,
    LineBreak,
    BeginGuardedBlock,
    CallBuiltin(Seq<char>),
    CallUserWord(Seq<char>),
    CallQualifiedWord(Seq<char>, Seq<char>),
    CondDispatch(usize),
    FallbackToken(TokenView),
}

pub open spec fn op_view(op: CompiledOp) -> OpView {
    match op {
        CompiledOp::PushLiteral(v) => OpView::PushLiteral(v@),
        CompiledOp::PushVectorLiteral(vs) => OpView::PushVectorLiteral(values_view(vs@)),
        CompiledOp::PushCodeBlock(ts) => OpView::PushCodeBlock(tokens_view(ts@)),
        CompiledOp::SetTargetModeStackTop => OpView::SetTargetModeStackTop,
        CompiledOp::SetTargetModeStack => OpView::SetTargetModeStack,
        CompiledOp::SetConsumptionConsume => OpView::SetConsumptionConsume,
        CompiledOp::SetConsumptionKeep => OpView::SetConsumptionKeep,
        CompiledOp::LineBreak => OpView::LineBreak,
        CompiledOp::BeginGuardedBlock => OpView::BeginGuardedBlock,
        CompiledOp::CallBuiltin(n) => OpView::CallBuiltin(n@),
        CompiledOp::CallUserWord(n) => OpView::CallUserWord(n@),
        CompiledOp::CallQualifiedWord { namespace, word } => OpView::CallQualifiedWord(namespace@, word@),
        CompiledOp::CondDispatch(k) => OpView::CondDispatch(k),
        CompiledOp::FallbackToken(t) => OpView::FallbackToken(token_view(t)),
    }
}

pub open spec fn ops_view(ops: Seq<CompiledOp>) -> Seq<OpView> {
    ops.map_values(|o: CompiledOp| op_view(o))
}

/// An independent copy of an operation.
pub fn copy_op(op: &CompiledOp) -> (r: CompiledOp)
    ensures
        op_view(r) == op_view(*op),
{
    match op {
        CompiledOp::PushLiteral(v) => CompiledOp::PushLiteral(v.duplicate()),
        CompiledOp::PushVectorLiteral(vs) => {
            let c = copy_values(vs);
            proof {
                crate::value::lemma_values_view(c@);
                crate::value::lemma_values_view(vs@);
                assert(values_view(c@) =~= values_view(vs@));
            }
            CompiledOp::PushVectorLiteral(c)
        },
        CompiledOp::PushCodeBlock(ts) => CompiledOp::PushCodeBlock(copy_tokens(ts)),
        CompiledOp::SetTargetModeStackTop => CompiledOp::SetTargetModeStackTop,
        CompiledOp::SetTargetModeStack => CompiledOp::SetTargetModeStack,
        CompiledOp::SetConsumptionConsume => CompiledOp::SetConsumptionConsume,
        CompiledOp::SetConsumptionKeep => CompiledOp::SetConsumptionKeep,
        CompiledOp::LineBreak => CompiledOp::LineBreak,
        CompiledOp::BeginGuardedBlock => CompiledOp::BeginGuardedBlock,
        CompiledOp::CallBuiltin(n) => CompiledOp::CallBuiltin(copy_string(n)),
        CompiledOp::CallUserWord(n) => CompiledOp::CallUserWord(copy_string(n)),
        CompiledOp::CallQualifiedWord { namespace, word } => CompiledOp::CallQualifiedWord {
            namespace: copy_string(namespace),
            word: copy_string(word),
        },
        CompiledOp::CondDispatch(k) => CompiledOp::CondDispatch(*k),
        CompiledOp::FallbackToken(t) => CompiledOp::FallbackToken(copy_token(t)),
    }
}

/// The operations of a plan, line after line, as one sequence.
pub fn flatten_plan(plan: &CompiledPlan) -> (r: Vec<CompiledOp>)
    ensures
        ops_view(r@) == ops_view(plan_ops(plan.lines@)),
{
    let mut out: Vec<CompiledOp> = Vec::new();
    let mut li: usize = 0;
    proof {
        assert(plan.lines@.subrange(0, 0) =~= Seq::<CompiledLine>::empty());
        assert(ops_view(out@) =~= ops_view(plan_ops(plan.lines@.subrange(0, 0))));
    }
    while li < plan.lines.len()
        invariant
            0 <= li <= plan.lines@.len(),
            ops_view(out@) == ops_view(plan_ops(plan.lines@.subrange(0, li as int))),
        decreases plan.lines@.len() - li,
    {
        let ops = &plan.lines[li].ops;
        let ghost base = out@;
        let mut k: usize = 0;
        proof {
            assert(ops@.subrange(0, 0) =~= Seq::<CompiledOp>::empty());
            assert(ops_view(out@) =~= ops_view(base) + ops_view(ops@.subrange(0, 0)));
        }
        while k < ops.len()
            invariant
                0 <= k <= ops@.len(),
                ops_view(out@) == ops_view(base) + ops_view(ops@.subrange(0, k as int)),
            decreases ops@.len() - k,
        {
            let ghost before = out@;
            out.push(copy_op(&ops[k]));
            proof {
                assert(ops_view(out@) =~= ops_view(before).push(op_view(ops@[k as int])));
                assert(ops_view(ops@.subrange(0, k + 1)) =~= ops_view(ops@.subrange(0, k as int)).push(op_view(ops@[k as int])));
                assert(ops_view(out@) =~= ops_view(base) + ops_view(ops@.subrange(0, k + 1)));
            }
            k = k + 1;
        }
        proof {
            assert(ops@.subrange(0, ops@.len() as int) =~= ops@);
            assert(plan.lines@.subrange(0, li + 1).drop_last() =~= plan.lines@.subrange(0, li as int));
            assert(plan.lines@.subrange(0, li + 1).last() == plan.lines@[li as int]);
            assert(ops_view(plan_ops(plan.lines@.subrange(0, li + 1))) =~= ops_view(
                plan_ops(plan.lines@.subrange(0, li as int)),
            ) + ops_view(ops@));
        }
        li = li + 1;
    }
    proof {
        assert(plan.lines@.subrange(0, li as int) =~= plan.lines@);
    }
    out
}

/// The purity class of a builtin.
#[derive(Clone, Copy, Debug, PartialEq, Eq, Structural)]
pub enum Purity {
    Pure,
    Impure,
    Unknown,
}

pub open spec fn one_of(name: Seq<char>, names: Seq<&'static str>) -> bool {
    exists|i: int| 0 <= i < names.len() && names[i]@ == name
}

/// Builtins that consume two operands and produce one.
pub open spec fn binary_builtins() -> Seq<&'static str> {
    seq!["+", "-", "*", "/", "%", "^", "<", ">", "<=", ">=", "=", "!=", "AND", "OR", "XOR"]
}

/// Builtins that consume one operand and produce one.
pub open spec fn unary_builtins() -> Seq<&'static str> {
    seq![
        "NOT",
        "ABS",
        "NEG",
        "SQRT",
        "FLOOR",
        "CEIL",
        "ROUND",
        "SIGN",
        "SUCC",
        "PRED",
        "EXP",
        "LOG",
        "LOG2",
        "LOG10",
        "SIN",
        "COS",
        "TAN",
        "ASIN",
        "ACOS",
        "ATAN",
        "INT",
        "FLOAT",
        "STR",
        "BOOL",
        "CHAR",
    ]
}

/// Builtins with observable effects: I/O, time, randomness, dictionary
/// mutation, concurrency.
pub open spec fn impure_builtins() -> Seq<&'static str> {
    seq![
        "PRINT",
        "EVAL",
        "DEF",
        "DEL",
        "IMPORT",
        "IMPORT-ONLY",
        "UNIMPORT",
        "CSPRNG",
        "NOW",
        "SLEEP",
        "SPAWN",
        "AWAIT",
        "SEND",
        "RECEIVE",
        "INPUT",
        "READ",
        "WRITE",
    ]
}

/// Builtins whose behaviour depends on runtime arguments (higher-order and
/// control-flow words).
pub open spec fn unknown_purity_builtins() -> Seq<&'static str> {
    seq!["MAP", "FILTER", "FOLD", "SCAN", "EXEC", "COND", "TIMES", "WHILE", "ANY", "ALL", "COUNT"]
}

/// `(consumes, produces)` of a builtin whose stack arity is fixed.
pub open spec fn builtin_arity_spec(name: Seq<char>) -> Option<(int, int)> {
    if one_of(name, binary_builtins()) {
        Some((2, 1))
    } else if one_of(name, unary_builtins()) {
        Some((1, 1))
    } else {
        None
    }
}

/// The purity class of a builtin, `None` for a name that is not a builtin
/// of the table.
pub open spec fn purity_spec(name: Seq<char>) -> Option<Purity> {
    if one_of(name, impure_builtins()) {
        Some(Purity::Impure)
    } else if one_of(name, unknown_purity_builtins()) {
        Some(Purity::Unknown)
    } else if one_of(name, binary_builtins()) || one_of(name, unary_builtins()) {
        Some(Purity::Pure)
    } else {
        None
    }
}

fn binary_table() -> (r: Vec<&'static str>)
    ensures
        r@ == binary_builtins(),
{
    let r = vec!["+", "-", "*", "/", "%", "^", "<", ">", "<=", ">=", "=", "!=", "AND", "OR", "XOR"];
    assert(r@ =~= binary_builtins());
    r
}

fn unary_table() -> (r: Vec<&'static str>)
    ensures
        r@ == unary_builtins(),
{
    let r = vec![
        "NOT",
        "ABS",
        "NEG",
        "SQRT",
        "FLOOR",
        "CEIL",
        "ROUND",
        "SIGN",
        "SUCC",
        "PRED",
        "EXP",
        "LOG",
        "LOG2",
        "LOG10",
        "SIN",
        "COS",
        "TAN",
        "ASIN",
        "ACOS",
        "ATAN",
        "INT",
        "FLOAT",
        "STR",
        "BOOL",
        "CHAR",
    ];
    assert(r@ =~= unary_builtins());
    r
}

fn impure_table() -> (r: Vec<&'static str>)
    ensures
        r@ == impure_builtins(),
{
    let r = vec![
        "PRINT",
        "EVAL",
        "DEF",
        "DEL",
        "IMPORT",
        "IMPORT-ONLY",
        "UNIMPORT",
        "CSPRNG",
        "NOW",
        "SLEEP",
        "SPAWN",
        "AWAIT",
        "SEND",
        "RECEIVE",
        "INPUT",
        "READ",
        "WRITE",
    ];
    assert(r@ =~= impure_builtins());
    r
}

fn unknown_table() -> (r: Vec<&'static str>)
    ensures
        r@ == unknown_purity_builtins(),
{
    let r = vec!["MAP", "FILTER", "FOLD", "SCAN", "EXEC", "COND", "TIMES", "WHILE", "ANY", "ALL", "COUNT"];
    assert(r@ =~= unknown_purity_builtins());
    r
}

/// `name` is one of `names`.
pub fn is_one_of(name: &str, names: &Vec<&'static str>) -> (r: bool)
    ensures
        r == one_of(name@, names@),
{
    let mut i: usize = 0;
    while i < names.len()
        invariant
            0 <= i <= names@.len(),
            forall|k: int| 0 <= k < i ==> names@[k]@ != name@,
        decreases names@.len() - i,
    {
        if str_equal(names[i], name) {
            return true;
        }
        i = i + 1;
    }
    false
}

/// The fixed `(consumes, produces)` arity of a well-known pure builtin.
pub fn builtin_arity(name: &str) -> (r: Option<(i32, i32)>)
    ensures
        r matches Some(p) ==> builtin_arity_spec(name@) == Some((p.0 as int, p.1 as int)),
        r is None ==> builtin_arity_spec(name@) is None,
{
    if is_one_of(name, &binary_table()) {
        Some((2, 1))
    } else if is_one_of(name, &unary_table()) {
        Some((1, 1))
    } else {
        None
    }
}

/// The purity class of a builtin.
pub fn purity_by_name(name: &str) -> (r: Option<Purity>)
    ensures
        r == purity_spec(name@),
{
    if is_one_of(name, &impure_table()) {
        Some(Purity::Impure)
    } else if is_one_of(name, &unknown_table()) {
        Some(Purity::Unknown)
    } else if is_one_of(name, &binary_table()) || is_one_of(name, &unary_table()) {
        Some(Purity::Pure)
    } else {
        None
    }
}

} // verus!
