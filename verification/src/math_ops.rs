//! Numeric words lifted over vectors: `NEG`, `ABS` and `RATIO` element by
//! element, `MIN`, `MAX` and `GCD` with the broadcast shape rules (a scalar
//! pairs with every element, equal lengths pair element-wise, a length-one
//! vector stretches, other lengths are a shape error). A NIL lane passes
//! through.
use crate::error::{key_mismatch, AjisaiError};
use crate::interpreter::{base_after, extract_operands, keeping, restore_operands, same_except_stack, top_views, Interpreter};
use crate::rational::{abs_int, gcd_int, spec_gcd, Fraction};
use crate::record_ops::plain;
use crate::value::{
    lemma_values_view, values_view, AbsenceMetadata, DataView, Interpretation, NilReason, Recoverability, Value,
    ValueData, ValueView,
};
use vstd::prelude::*;

verus! {

/// Why a lifted numeric word failed.
pub enum LiftFailure {
    /// Two vectors of these lengths met where neither stretches.
    Mismatch(nat, nat),
    /// A lane held something that is not a number.
    NotNumber,
    /// A lane held something that is not a number, for a word that declares
    /// the `nonNumeric` condition; the detail the error carries.
    NonNumeric(Seq<char>),
    /// Two records whose key sequences differ.
    ShapeMismatch,
}

/// A binary numeric word lifted over vectors: `MIN`, `MAX` or `GCD`.
#[derive(Clone, Copy, Debug, PartialEq, Eq, Structural)]
pub enum BinaryNumeric {
    Min,
    Max,
    Gcd,
}

/// The left operand is kept: `MIN` keeps it unless it is greater, `MAX`
/// unless it is less.
pub open spec fn keeps_left(which: BinaryNumeric, x: Fraction, y: Fraction) -> bool {
    match which {
        BinaryNumeric::Min => !y.less_than(x),
        _ => !x.less_than(y),
    }
}

/// The NIL a word projects on an operand outside its domain.
pub open spec fn domain_miss_recoverable() -> Value {
    Value {
        data: ValueData::Nil,
        hint: Interpretation::Nil,
        absence: Some(
            AbsenceMetadata { reason: Some(NilReason::DomainMiss), recoverability: Recoverability::Recoverable, detail: None },
        ),
    }
}

/// The scalar law of `GCD`: the non-negative greatest common divisor of two
/// integers; a non-integer projects a domain-miss NIL.
pub open spec fn gcd_leaf(x: Fraction, y: Fraction) -> ValueView {
    if x.den() == 1 && y.den() == 1 {
        plain(DataView::Scalar(Fraction::from_parts((spec_gcd(abs_int(x.num()) as nat, abs_int(y.num()) as nat) as int, 1))))
    } else {
        domain_miss_recoverable()@
    }
}

/// The scalar law of `MIN` / `MAX`: a NIL operand passes through (the left
/// first), two numbers give the one kept, anything else is not a number.
pub open spec fn select_leaf(which: BinaryNumeric, a: ValueView, b: ValueView) -> Result<ValueView, LiftFailure> {
    if a.data is Nil {
        Ok(a)
    } else if b.data is Nil {
        Ok(b)
    } else {
        match (a.data, b.data) {
            (DataView::Scalar(x), DataView::Scalar(y)) => if which == BinaryNumeric::Gcd {
                Ok(gcd_leaf(x, y))
            } else {
                Ok(if keeps_left(which, x, y) {
                    a
                } else {
                    b
                })
            },
            _ => if which == BinaryNumeric::Gcd {
                Err(LiftFailure::NonNumeric("GCD: expected a number, got a non-numeric value"@))
            } else {
                Err(LiftFailure::NotNumber)
            },
        }
    }
}

/// `MIN` / `MAX` lifted over the shapes of `a` and `b`.
pub open spec fn lift_select(which: BinaryNumeric, a: ValueView, b: ValueView) -> Result<ValueView, LiftFailure>
    decreases a, b, 0nat,
{
    match (a.data, b.data) {
        (DataView::Vector(l), DataView::Vector(r)) => {
            if l.len() == 1 && r.len() != 1 {
                wrap(select_right(which, l[0], r, r.len()))
            } else if r.len() == 1 && l.len() != 1 {
                wrap(select_left(which, l, r[0], l.len()))
            } else if l.len() != r.len() {
                Err(LiftFailure::Mismatch(l.len(), r.len()))
            } else {
                wrap(select_pair(which, l, r, l.len()))
            }
        },
        (DataView::Vector(l), _) => wrap(select_left(which, l, b, l.len())),
        (_, DataView::Vector(r)) => wrap(select_right(which, a, r, r.len())),
        _ => select_leaf(which, a, b),
    }
}

/// A lifted sequence of lanes as a plain vector.
pub open spec fn wrap(r: Result<Seq<ValueView>, LiftFailure>) -> Result<ValueView, LiftFailure> {
    match r {
        Ok(items) => Ok(plain(DataView::Vector(items))),
        Err(e) => Err(e),
    }
}

/// The first `n` lanes of `items` against `b`; the first failure in order
/// wins.
pub open spec fn select_left(which: BinaryNumeric, items: Seq<ValueView>, b: ValueView, n: nat) -> Result<Seq<ValueView>, LiftFailure>
    decreases items, b, n,
{
    if n == 0 || n > items.len() {
        Ok(Seq::empty())
    } else {
        match select_left(which, items, b, (n - 1) as nat) {
            Err(e) => Err(e),
            Ok(rest) => match lift_select(which, items[n - 1], b) {
                Err(e) => Err(e),
                Ok(v) => Ok(rest.push(v)),
            },
        }
    }
}

/// `a` against the first `n` lanes of `items`.
pub open spec fn select_right(which: BinaryNumeric, a: ValueView, items: Seq<ValueView>, n: nat) -> Result<Seq<ValueView>, LiftFailure>
    decreases a, items, n,
{
    if n == 0 || n > items.len() {
        Ok(Seq::empty())
    } else {
        match select_right(which, a, items, (n - 1) as nat) {
            Err(e) => Err(e),
            Ok(rest) => match lift_select(which, a, items[n - 1]) {
                Err(e) => Err(e),
                Ok(v) => Ok(rest.push(v)),
            },
        }
    }
}

/// The first `n` lanes of `l` and `r` pairwise.
pub open spec fn select_pair(which: BinaryNumeric, l: Seq<ValueView>, r: Seq<ValueView>, n: nat) -> Result<Seq<ValueView>, LiftFailure>
    decreases l, r, n,
{
    if n == 0 || n > l.len() || n > r.len() {
        Ok(Seq::empty())
    } else {
        match select_pair(which, l, r, (n - 1) as nat) {
            Err(e) => Err(e),
            Ok(rest) => match lift_select(which, l[n - 1], r[n - 1]) {
                Err(e) => Err(e),
                Ok(v) => Ok(rest.push(v)),
            },
        }
    }
}

// ── Error propagation in the lane sequences ──────────────────────────────────
proof fn lemma_left_err(which: BinaryNumeric, items: Seq<ValueView>, b: ValueView, k: nat, n: nat)
    requires
        k <= n <= items.len(),
        select_left(which, items, b, k) is Err,
    ensures
        select_left(which, items, b, n) == select_left(which, items, b, k),
    decreases n,
{
    if n > k {
        lemma_left_err(which, items, b, k, (n - 1) as nat);
    }
}

proof fn lemma_right_err(which: BinaryNumeric, a: ValueView, items: Seq<ValueView>, k: nat, n: nat)
    requires
        k <= n <= items.len(),
        select_right(which, a, items, k) is Err,
    ensures
        select_right(which, a, items, n) == select_right(which, a, items, k),
    decreases n,
{
    if n > k {
        lemma_right_err(which, a, items, k, (n - 1) as nat);
    }
}

proof fn lemma_pair_err(which: BinaryNumeric, l: Seq<ValueView>, r: Seq<ValueView>, k: nat, n: nat)
    requires
        k <= n <= l.len(),
        n <= r.len(),
        select_pair(which, l, r, k) is Err,
    ensures
        select_pair(which, l, r, n) == select_pair(which, l, r, k),
    decreases n,
{
    if n > k {
        lemma_pair_err(which, l, r, k, (n - 1) as nat);
    }
}

// ── Executable lifting ───────────────────────────────────────────────────────
/// The error a lifting failure raises.
pub open spec fn raises(e: AjisaiError, f: LiftFailure) -> bool {
    match f {
        LiftFailure::Mismatch(l1, l2) => e matches AjisaiError::VectorLengthMismatch { len1, len2 }
            && len1 == l1 && len2 == l2,
        LiftFailure::NotNumber => e matches AjisaiError::TypeError { expected: x, got: y } && x
            == "number" && y == "non-numeric value",
        LiftFailure::NonNumeric(m) => e.declares("nonNumeric", m),
        LiftFailure::ShapeMismatch => e.declares("shapeMismatch", key_mismatch()),
    }
}

pub open spec fn value_matches(r: Result<Value, AjisaiError>, s: Result<ValueView, LiftFailure>) -> bool {
    match s {
        Ok(v) => r matches Ok(x) && x@ == v,
        Err(f) => r matches Err(e) && raises(e, f),
    }
}

pub open spec fn lanes_match(r: Result<Vec<Value>, AjisaiError>, s: Result<Seq<ValueView>, LiftFailure>) -> bool {
    match s {
        Ok(v) => r matches Ok(x) && values_view(x@) == v,
        Err(f) => r matches Err(e) && raises(e, f),
    }
}

fn not_number() -> (e: AjisaiError)
    ensures
        raises(e, LiftFailure::NotNumber),
{
    AjisaiError::TypeError { expected: "number", got: "non-numeric value" }
}

fn gcd_value(x: &Fraction, y: &Fraction) -> (r: Value)
    ensures
        r@ == gcd_leaf(*x, *y),
{
    if x.is_integer() && y.is_integer() {
        let g = gcd_int(x.numerator(), y.numerator());
        let f = Fraction::from_int(g).unwrap();
        proof {
            Fraction::lemma_from_parts(f);
        }
        Value::from_fraction(f)
    } else {
        Value::nil_with_reason(NilReason::DomainMiss, Recoverability::Recoverable)
    }
}

fn select_scalar(which: BinaryNumeric, a: &Value, b: &Value) -> (r: Result<Value, AjisaiError>)
    ensures
        value_matches(r, select_leaf(which, a@, b@)),
{
    if a.is_nil() {
        return Ok(a.duplicate());
    }
    if b.is_nil() {
        return Ok(b.duplicate());
    }
    match (&a.data, &b.data) {
        (ValueData::Scalar(x), ValueData::Scalar(y)) => {
            if which == BinaryNumeric::Gcd {
                return Ok(gcd_value(x, y));
            }
            let keep = match which {
                BinaryNumeric::Min => !y.lt(x),
                _ => !x.lt(y),
            };
            if keep {
                Ok(a.duplicate())
            } else {
                Ok(b.duplicate())
            }
        },
        _ => if which == BinaryNumeric::Gcd {
            Err(AjisaiError::declared("nonNumeric", "GCD: expected a number, got a non-numeric value"))
        } else {
            Err(not_number())
        },
    }
}

/// `MIN` / `MAX` lifted over the shapes of `a` and `b`.
pub fn lift_binary_numeric(which: BinaryNumeric, a: &Value, b: &Value) -> (r: Result<Value, AjisaiError>)
    ensures
        value_matches(r, lift_select(which, a@, b@)),
    decreases *a, *b, 0nat,
{
    match (&a.data, &b.data) {
        (ValueData::Vector(u), ValueData::Vector(w)) => {
            proof {
                assert(decreases_to!(*a => (**u)@));
                lemma_values_view((**u)@);
                lemma_values_view((**w)@);
            }
            let l = &**u;
            let rr = &**w;
            if l.len() == 1 && rr.len() != 1 {
                proof {
                    assert(decreases_to!(*a => l@[0]));
                }
                let lanes = select_right_lanes(which, &l[0], rr);
                wrap_lanes(lanes)
            } else if rr.len() == 1 && l.len() != 1 {
                let lanes = select_left_lanes(which, l, &rr[0]);
                wrap_lanes(lanes)
            } else if l.len() != rr.len() {
                Err(AjisaiError::VectorLengthMismatch { len1: l.len(), len2: rr.len() })
            } else {
                let lanes = select_pair_lanes(which, l, rr);
                wrap_lanes(lanes)
            }
        },
        (ValueData::Vector(u), _) => {
            proof {
                assert(decreases_to!(*a => (**u)@));
                lemma_values_view((**u)@);
            }
            let lanes = select_left_lanes(which, &**u, b);
            wrap_lanes(lanes)
        },
        (_, ValueData::Vector(w)) => {
            proof {
                assert(decreases_to!(*b => (**w)@));
                lemma_values_view((**w)@);
            }
            let lanes = select_right_lanes(which, a, &**w);
            wrap_lanes(lanes)
        },
        _ => select_scalar(which, a, b),
    }
}

fn wrap_lanes(lanes: Result<Vec<Value>, AjisaiError>) -> (r: Result<Value, AjisaiError>)
    ensures
        forall|s: Result<Seq<ValueView>, LiftFailure>| lanes_match(lanes, s) ==> value_matches(r, wrap(s)),
{
    match lanes {
        Ok(items) => Ok(Value::from_children(items)),
        Err(e) => Err(e),
    }
}

fn select_left_lanes(which: BinaryNumeric, items: &Vec<Value>, b: &Value) -> (r: Result<Vec<Value>, AjisaiError>)
    ensures
        lanes_match(r, select_left(which, values_view(items@), b@, items@.len())),
    decreases items@, *b, items@.len(),
{
    let ghost iv = values_view(items@);
    proof {
        lemma_values_view(items@);
    }
    let mut out: Vec<Value> = Vec::new();
    let mut i: usize = 0;
    while i < items.len()
        invariant
            0 <= i <= items@.len(),
            iv == values_view(items@),
            iv.len() == items@.len(),
            forall|m: int| 0 <= m < items@.len() ==> #[trigger] iv[m] == items@[m]@,
            out@.len() == i,
            select_left(which, iv, b@, i as nat) == Ok::<Seq<ValueView>, LiftFailure>(values_view(out@)),
        decreases items@.len() - i,
    {
        proof {
            assert(decreases_to!(items@ => items@[i as int]));
        }
        match lift_binary_numeric(which, &items[i], b) {
            Ok(v) => {
                let ghost before = out@;
                proof {
                    lemma_values_view(before);
                }
                out.push(v);
                proof {
                    lemma_values_view(out@);
                    assert(values_view(out@) =~= values_view(before).push(out@[i as int]@));
                }
            },
            Err(e) => {
                proof {
                    lemma_left_err(which, iv, b@, (i + 1) as nat, items@.len());
                }
                return Err(e);
            },
        }
        i = i + 1;
    }
    Ok(out)
}

fn select_right_lanes(which: BinaryNumeric, a: &Value, items: &Vec<Value>) -> (r: Result<Vec<Value>, AjisaiError>)
    ensures
        lanes_match(r, select_right(which, a@, values_view(items@), items@.len())),
    decreases *a, items@, items@.len(),
{
    let ghost iv = values_view(items@);
    proof {
        lemma_values_view(items@);
    }
    let mut out: Vec<Value> = Vec::new();
    let mut i: usize = 0;
    while i < items.len()
        invariant
            0 <= i <= items@.len(),
            iv == values_view(items@),
            iv.len() == items@.len(),
            forall|m: int| 0 <= m < items@.len() ==> #[trigger] iv[m] == items@[m]@,
            out@.len() == i,
            select_right(which, a@, iv, i as nat) == Ok::<Seq<ValueView>, LiftFailure>(values_view(out@)),
        decreases items@.len() - i,
    {
        proof {
            assert(decreases_to!(items@ => items@[i as int]));
        }
        match lift_binary_numeric(which, a, &items[i]) {
            Ok(v) => {
                let ghost before = out@;
                proof {
                    lemma_values_view(before);
                }
                out.push(v);
                proof {
                    lemma_values_view(out@);
                    assert(values_view(out@) =~= values_view(before).push(out@[i as int]@));
                }
            },
            Err(e) => {
                proof {
                    lemma_right_err(which, a@, iv, (i + 1) as nat, items@.len());
                }
                return Err(e);
            },
        }
        i = i + 1;
    }
    Ok(out)
}

fn select_pair_lanes(which: BinaryNumeric, l: &Vec<Value>, r: &Vec<Value>) -> (res: Result<Vec<Value>, AjisaiError>)
    requires
        l@.len() == r@.len(),
    ensures
        lanes_match(res, select_pair(which, values_view(l@), values_view(r@), l@.len())),
    decreases l@, r@, l@.len(),
{
    let ghost lv = values_view(l@);
    let ghost rv = values_view(r@);
    proof {
        lemma_values_view(l@);
        lemma_values_view(r@);
    }
    let mut out: Vec<Value> = Vec::new();
    let mut i: usize = 0;
    while i < l.len()
        invariant
            0 <= i <= l@.len(),
            l@.len() == r@.len(),
            lv == values_view(l@),
            rv == values_view(r@),
            lv.len() == l@.len(),
            rv.len() == r@.len(),
            forall|m: int| 0 <= m < l@.len() ==> #[trigger] lv[m] == l@[m]@,
            forall|m: int| 0 <= m < r@.len() ==> #[trigger] rv[m] == r@[m]@,
            out@.len() == i,
            select_pair(which, lv, rv, i as nat) == Ok::<Seq<ValueView>, LiftFailure>(values_view(out@)),
        decreases l@.len() - i,
    {
        proof {
            assert(decreases_to!(l@ => l@[i as int]));
        }
        match lift_binary_numeric(which, &l[i], &r[i]) {
            Ok(v) => {
                let ghost before = out@;
                proof {
                    lemma_values_view(before);
                }
                out.push(v);
                proof {
                    lemma_values_view(out@);
                    assert(values_view(out@) =~= values_view(before).push(out@[i as int]@));
                }
            },
            Err(e) => {
                proof {
                    lemma_pair_err(which, lv, rv, (i + 1) as nat, l@.len());
                }
                return Err(e);
            },
        }
        i = i + 1;
    }
    Ok(out)
}

/// `v` with the `RawNumber` role.
pub open spec fn as_raw_number(v: ValueView) -> ValueView {
    ValueView { hint: Interpretation::RawNumber, ..v }
}

/// `MIN` / `MAX ( a b -> selected )`, lifted over vectors; the answer takes
/// the `RawNumber` role. A failure puts the operands back.
pub fn apply_selecting(interp: &mut Interpreter, which: BinaryNumeric) -> (r: Result<(), AjisaiError>)
    ensures
        same_except_stack(final(interp), old(interp)),
        old(interp).stack@.len() < 2 ==> (r matches Err(AjisaiError::StackUnderflow)),
        r is Err ==> final(interp).stack@ == old(interp).stack@,
        old(interp).stack@.len() >= 2 ==> {
            let ops = top_views(old(interp).stack@, 2);
            match lift_select(which, ops[0], ops[1]) {
                Ok(v) => r is Ok && crate::record_ops::pushed_one(
                    final(interp).stack@,
                    base_after(old(interp), 2),
                    as_raw_number(v),
                ),
                Err(f) => r matches Err(e) && raises(e, f),
            }
        },
{
    let operands = extract_operands(interp, 2)?;
    let ghost ops = top_views(old(interp).stack@, 2);
    proof {
        assert(ops[0] == operands@[0]@);
        assert(ops[1] == operands@[1]@);
        if !keeping(old(interp)) {
            assert(old(interp).stack@.subrange(0, old(interp).stack@.len() - 2) + operands@
                =~= old(interp).stack@);
        }
    }
    match lift_binary_numeric(which, &operands[0], &operands[1]) {
        Ok(v) => {
            interp.stack.push(v.with_role(Interpretation::RawNumber));
            proof {
                assert(interp.stack@.drop_last() =~= base_after(old(interp), 2));
            }
            Ok(())
        },
        Err(e) => {
            restore_operands(interp, operands);
            Err(e)
        },
    }
}

/// `MIN ( a b -> min )`: the left operand unless it is greater.
pub fn op_min(interp: &mut Interpreter) -> (r: Result<(), AjisaiError>)
    ensures
        same_except_stack(final(interp), old(interp)),
        old(interp).stack@.len() < 2 ==> (r matches Err(AjisaiError::StackUnderflow)),
        r is Err ==> final(interp).stack@ == old(interp).stack@,
        old(interp).stack@.len() >= 2 ==> {
            let ops = top_views(old(interp).stack@, 2);
            match lift_select(BinaryNumeric::Min, ops[0], ops[1]) {
                Ok(v) => r is Ok && crate::record_ops::pushed_one(
                    final(interp).stack@,
                    base_after(old(interp), 2),
                    as_raw_number(v),
                ),
                Err(f) => r matches Err(e) && raises(e, f),
            }
        },
{
    apply_selecting(interp, BinaryNumeric::Min)
}

/// `MAX ( a b -> max )`: the left operand unless it is less.
pub fn op_max(interp: &mut Interpreter) -> (r: Result<(), AjisaiError>)
    ensures
        same_except_stack(final(interp), old(interp)),
        old(interp).stack@.len() < 2 ==> (r matches Err(AjisaiError::StackUnderflow)),
        r is Err ==> final(interp).stack@ == old(interp).stack@,
        old(interp).stack@.len() >= 2 ==> {
            let ops = top_views(old(interp).stack@, 2);
            match lift_select(BinaryNumeric::Max, ops[0], ops[1]) {
                Ok(v) => r is Ok && crate::record_ops::pushed_one(
                    final(interp).stack@,
                    base_after(old(interp), 2),
                    as_raw_number(v),
                ),
                Err(f) => r matches Err(e) && raises(e, f),
            }
        },
{
    apply_selecting(interp, BinaryNumeric::Max)
}

// ── Unary words ──────────────────────────────────────────────────────────────
#[derive(Clone, Copy, Debug, PartialEq, Eq, Structural)]
pub enum UnaryNumeric {
    Neg,
    Abs,
    /// `RATIO`: a number's numerator and denominator as a vector.
    Ratio,
}

/// A number's two parts as integers: `[ numerator denominator ]`, the
/// denominator positive.
pub open spec fn ratio_of(f: Fraction) -> ValueView {
    plain(
        DataView::Vector(
            seq![
                plain(DataView::Scalar(Fraction::from_parts((f.num(), 1)))),
                plain(DataView::Scalar(Fraction::from_parts((f.den(), 1)))),
            ],
        ),
    )
}

/// The scalar law of `NEG` / `ABS`: NIL passes through, a number maps, any
/// other value is not a number.
pub open spec fn unary_leaf(op: UnaryNumeric, a: ValueView) -> Result<ValueView, LiftFailure> {
    match a.data {
        DataView::Nil => Ok(a),
        DataView::Scalar(f) => match op {
            UnaryNumeric::Neg => Ok(plain(DataView::Scalar(f.negated()))),
            UnaryNumeric::Abs => if f.num() < 0 {
                Ok(plain(DataView::Scalar(f.negated())))
            } else {
                Ok(a)
            },
            UnaryNumeric::Ratio => Ok(ratio_of(f)),
        },
        _ => if op == UnaryNumeric::Ratio {
            Err(LiftFailure::NonNumeric("RATIO: expected a number, got a non-numeric value"@))
        } else {
            Err(LiftFailure::NotNumber)
        },
    }
}

/// `NEG` / `ABS` lifted over nested vectors.
pub open spec fn lift_unary(op: UnaryNumeric, a: ValueView) -> Result<ValueView, LiftFailure>
    decreases a, 0nat,
{
    match a.data {
        DataView::Vector(items) => wrap(unary_lanes(op, items, items.len())),
        _ => unary_leaf(op, a),
    }
}

pub open spec fn unary_lanes(op: UnaryNumeric, items: Seq<ValueView>, n: nat) -> Result<Seq<ValueView>, LiftFailure>
    decreases items, n,
{
    if n == 0 || n > items.len() {
        Ok(Seq::empty())
    } else {
        match unary_lanes(op, items, (n - 1) as nat) {
            Err(e) => Err(e),
            Ok(rest) => match lift_unary(op, items[n - 1]) {
                Err(e) => Err(e),
                Ok(v) => Ok(rest.push(v)),
            },
        }
    }
}

proof fn lemma_unary_err(op: UnaryNumeric, items: Seq<ValueView>, k: nat, n: nat)
    requires
        k <= n <= items.len(),
        unary_lanes(op, items, k) is Err,
    ensures
        unary_lanes(op, items, n) == unary_lanes(op, items, k),
    decreases n,
{
    if n > k {
        lemma_unary_err(op, items, k, (n - 1) as nat);
    }
}

fn ratio_value(f: &Fraction) -> (r: Value)
    ensures
        r@ == ratio_of(*f),
{
    let n = Fraction::from_int(f.numerator()).unwrap();
    let d = Fraction::from_int(f.denominator()).unwrap();
    proof {
        Fraction::lemma_from_parts(n);
        Fraction::lemma_from_parts(d);
    }
    let items = vec![Value::from_fraction(n), Value::from_fraction(d)];
    proof {
        lemma_values_view(items@);
        assert(values_view(items@) =~= seq![items@[0]@, items@[1]@]);
    }
    Value::from_vector(items)
}

fn unary_scalar(op: UnaryNumeric, a: &Value) -> (r: Result<Value, AjisaiError>)
    ensures
        value_matches(r, unary_leaf(op, a@)),
{
    match &a.data {
        ValueData::Nil => Ok(a.duplicate()),
        ValueData::Scalar(f) => match op {
            UnaryNumeric::Neg => Ok(Value::from_fraction(f.neg())),
            UnaryNumeric::Abs => {
                if f.numerator() < 0 {
                    Ok(Value::from_fraction(f.neg()))
                } else {
                    Ok(a.duplicate())
                }
            },
            UnaryNumeric::Ratio => Ok(ratio_value(f)),
        },
        _ => if op == UnaryNumeric::Ratio {
            Err(AjisaiError::declared("nonNumeric", "RATIO: expected a number, got a non-numeric value"))
        } else {
            Err(not_number())
        },
    }
}

/// `NEG` / `ABS` lifted over nested vectors.
pub fn lift_unary_numeric(op: UnaryNumeric, a: &Value) -> (r: Result<Value, AjisaiError>)
    ensures
        value_matches(r, lift_unary(op, a@)),
    decreases *a, 0nat,
{
    match &a.data {
        ValueData::Vector(u) => {
            proof {
                assert(decreases_to!(*a => (**u)@));
                lemma_values_view((**u)@);
            }
            let lanes = unary_lane_values(op, &**u);
            wrap_lanes(lanes)
        },
        _ => unary_scalar(op, a),
    }
}

fn unary_lane_values(op: UnaryNumeric, items: &Vec<Value>) -> (r: Result<Vec<Value>, AjisaiError>)
    ensures
        lanes_match(r, unary_lanes(op, values_view(items@), items@.len())),
    decreases items@, items@.len(),
{
    let ghost iv = values_view(items@);
    proof {
        lemma_values_view(items@);
    }
    let mut out: Vec<Value> = Vec::new();
    let mut i: usize = 0;
    while i < items.len()
        invariant
            0 <= i <= items@.len(),
            iv == values_view(items@),
            iv.len() == items@.len(),
            forall|m: int| 0 <= m < items@.len() ==> #[trigger] iv[m] == items@[m]@,
            out@.len() == i,
            unary_lanes(op, iv, i as nat) == Ok::<Seq<ValueView>, LiftFailure>(values_view(out@)),
        decreases items@.len() - i,
    {
        proof {
            assert(decreases_to!(items@ => items@[i as int]));
        }
        match lift_unary_numeric(op, &items[i]) {
            Ok(v) => {
                let ghost before = out@;
                proof {
                    lemma_values_view(before);
                }
                out.push(v);
                proof {
                    lemma_values_view(out@);
                    assert(values_view(out@) =~= values_view(before).push(out@[i as int]@));
                }
            },
            Err(e) => {
                proof {
                    lemma_unary_err(op, iv, (i + 1) as nat, items@.len());
                }
                return Err(e);
            },
        }
        i = i + 1;
    }
    Ok(out)
}

/// `NEG` / `ABS ( x -> y )`, lifted over vectors; the answer takes the
/// `RawNumber` role. A failure puts the operand back.
pub fn apply_unary(interp: &mut Interpreter, op: UnaryNumeric) -> (r: Result<(), AjisaiError>)
    ensures
        same_except_stack(final(interp), old(interp)),
        old(interp).stack@.len() == 0 ==> (r matches Err(AjisaiError::StackUnderflow)),
        r is Err ==> final(interp).stack@ == old(interp).stack@,
        old(interp).stack@.len() > 0 ==> match lift_unary(op, old(interp).stack@.last()@) {
            Ok(v) => r is Ok && crate::record_ops::pushed_one(
                final(interp).stack@,
                base_after(old(interp), 1),
                as_raw_number(v),
            ),
            Err(f) => r matches Err(e) && raises(e, f),
        },
{
    let operands = extract_operands(interp, 1)?;
    proof {
        assert(top_views(old(interp).stack@, 1)[0] == operands@[0]@);
        assert(old(interp).stack@.last() == old(interp).stack@[old(interp).stack@.len() - 1]);
        if !keeping(old(interp)) {
            assert(old(interp).stack@.subrange(0, old(interp).stack@.len() - 1) + operands@
                =~= old(interp).stack@);
        }
    }
    match lift_unary_numeric(op, &operands[0]) {
        Ok(v) => {
            interp.stack.push(v.with_role(Interpretation::RawNumber));
            proof {
                assert(interp.stack@.drop_last() =~= base_after(old(interp), 1));
            }
            Ok(())
        },
        Err(e) => {
            restore_operands(interp, operands);
            Err(e)
        },
    }
}

/// `NEG ( x -> -x )`, lifted over vectors.
pub fn op_neg(interp: &mut Interpreter) -> (r: Result<(), AjisaiError>)
    ensures
        same_except_stack(final(interp), old(interp)),
        old(interp).stack@.len() == 0 ==> (r matches Err(AjisaiError::StackUnderflow)),
        r is Err ==> final(interp).stack@ == old(interp).stack@,
        old(interp).stack@.len() > 0 ==> match lift_unary(UnaryNumeric::Neg, old(interp).stack@.last()@) {
            Ok(v) => r is Ok && crate::record_ops::pushed_one(
                final(interp).stack@,
                base_after(old(interp), 1),
                as_raw_number(v),
            ),
            Err(f) => r matches Err(e) && raises(e, f),
        },
{
    apply_unary(interp, UnaryNumeric::Neg)
}

/// `ABS ( x -> |x| )`, lifted over vectors.
pub fn op_abs(interp: &mut Interpreter) -> (r: Result<(), AjisaiError>)
    ensures
        same_except_stack(final(interp), old(interp)),
        old(interp).stack@.len() == 0 ==> (r matches Err(AjisaiError::StackUnderflow)),
        r is Err ==> final(interp).stack@ == old(interp).stack@,
        old(interp).stack@.len() > 0 ==> match lift_unary(UnaryNumeric::Abs, old(interp).stack@.last()@) {
            Ok(v) => r is Ok && crate::record_ops::pushed_one(
                final(interp).stack@,
                base_after(old(interp), 1),
                as_raw_number(v),
            ),
            Err(f) => r matches Err(e) && raises(e, f),
        },
{
    apply_unary(interp, UnaryNumeric::Abs)
}

} // verus!
