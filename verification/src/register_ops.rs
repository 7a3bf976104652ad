//! The register words `R+`, `R-`, `R*`, `R/`: combine the stack top with the
//! register, element-wise over a vector top.
use crate::error::AjisaiError;
use crate::interpreter::{same_except_stack, Interpreter};
use crate::rational::{apply_arith, arith_result, ArithOp, Fraction};
use crate::value::{Interpretation, Value, ValueData};
use vstd::prelude::*;

verus! {

/// A number combined with the register number `n`: the reduced result.
pub open spec fn combined_scalar(op: ArithOp, v: Value, f: Fraction, n: Fraction) -> bool {
    v.data matches ValueData::Scalar(g) && arith_result(op, f, n) == Some((g.num(), g.den()))
        && v.hint == Interpretation::Auto && v.absence is None
}

/// A vector element after the register word: a number is combined with `n`,
/// anything else is kept as it was.
pub open spec fn combined_element(op: ArithOp, out: Value, e: Value, n: Fraction) -> bool {
    match e.data {
        ValueData::Scalar(f) => combined_scalar(op, out, f, n),
        _ => out@ == e@,
    }
}

/// Every number element of `items` combines with `n` within range.
pub open spec fn elements_fit(op: ArithOp, items: Seq<Value>, n: Fraction) -> bool {
    forall|i: int|
        0 <= i < items.len() ==> ((#[trigger] items[i]).data matches ValueData::Scalar(f)
            ==> arith_result(op, f, n) is Some)
}

/// What a register word leaves for top `a` and register `r`: `Ok(v)` with
/// the combined value, or the error it raises.
pub open spec fn register_outcome(op: ArithOp, a: Value, r: Value, v: Value) -> bool {
    match (a.data, r.data) {
        (ValueData::Scalar(x), ValueData::Scalar(n)) => combined_scalar(op, v, x, n),
        (ValueData::Vector(items), ValueData::Scalar(n)) => v.data matches ValueData::Vector(out)
            && (*out)@.len() == (*items)@.len() && (forall|i: int|
            0 <= i < (*items)@.len() ==> combined_element(op, #[trigger] (*out)@[i], (*items)@[i], n))
            && v.hint == Interpretation::Auto && v.absence is None,
        _ => false,
    }
}

pub open spec fn register_fails_with(op: ArithOp, a: Value, r: Value, e: AjisaiError) -> bool {
    match (a.data, r.data) {
        (ValueData::Scalar(x), ValueData::Scalar(n)) => if op == ArithOp::Div && n.is_zero_spec() {
            e is DivisionByZero
        } else {
            arith_result(op, x, n) is None && e is ArithmeticOverflow
        },
        (ValueData::Vector(items), ValueData::Scalar(n)) => if op == ArithOp::Div
            && n.is_zero_spec() {
            e is DivisionByZero
        } else {
            !elements_fit(op, (*items)@, n) && e is ArithmeticOverflow
        },
        (_, ValueData::Scalar(n)) => if op == ArithOp::Div && n.is_zero_spec() {
            e is DivisionByZero
        } else {
            e is TypeError
        },
        _ => e is TypeError,
    }
}

fn combine_scalar(op: ArithOp, x: &Fraction, n: &Fraction) -> (r: Result<Value, AjisaiError>)
    requires
        op == ArithOp::Div ==> !n.is_zero_spec(),
    ensures
        r matches Ok(v) ==> combined_scalar(op, v, *x, *n),
        r matches Err(e) ==> arith_result(op, *x, *n) is None && e is ArithmeticOverflow,
{
    match apply_arith(op, x, n) {
        Some(f) => Ok(Value::from_fraction(f)),
        None => Err(AjisaiError::ArithmeticOverflow),
    }
}

fn register_word(interp: &mut Interpreter, op: ArithOp) -> (r: Result<(), AjisaiError>)
    ensures
        same_except_stack(final(interp), old(interp)),
        old(interp).stack@.len() == 0 ==> (r matches Err(AjisaiError::StackUnderflow))
            && final(interp).stack == old(interp).stack,
        old(interp).stack@.len() > 0 && old(interp).register is None ==> (r matches Err(
            AjisaiError::RegisterEmpty,
        )) && final(interp).stack@ == old(interp).stack@.drop_last(),
        (old(interp).stack@.len() > 0 && old(interp).register is Some) ==> ({
            let a = old(interp).stack@.last();
            let reg = old(interp).register.unwrap();
            &&& r is Ok ==> final(interp).stack@.drop_last() == old(interp).stack@.drop_last()
                && final(interp).stack@.len() == old(interp).stack@.len() && register_outcome(
                op,
                a,
                reg,
                final(interp).stack@.last(),
            )
            &&& r matches Err(e) ==> register_fails_with(op, a, reg, e) && final(interp).stack@
                == old(interp).stack@.drop_last()
        }),
{
    if interp.stack.len() == 0 {
        return Err(AjisaiError::StackUnderflow);
    }
    let a = interp.stack.pop().unwrap();
    let reg = match &interp.register {
        Some(r) => r,
        None => {
            return Err(AjisaiError::RegisterEmpty);
        },
    };
    if let ValueData::Scalar(n) = &reg.data {
        if op == ArithOp::Div && n.is_zero() {
            return Err(AjisaiError::DivisionByZero);
        }
    }
    let result = match (&a.data, &reg.data) {
        (ValueData::Scalar(x), ValueData::Scalar(n)) => combine_scalar(op, x, n),
        (ValueData::Vector(items), ValueData::Scalar(n)) => {
            let mut out: Vec<Value> = Vec::new();
            let mut i: usize = 0;
            let mut failed = false;
            while i < items.len()
                invariant
                    0 <= i <= items@.len(),
                    op == ArithOp::Div ==> !n.is_zero_spec(),
                    !failed ==> out@.len() == i,
                    !failed ==> forall|k: int|
                        0 <= k < i ==> combined_element(op, #[trigger] out@[k], items@[k], *n),
                    !failed ==> forall|k: int|
                        0 <= k < i ==> ((#[trigger] items@[k]).data matches ValueData::Scalar(f)
                            ==> arith_result(op, f, *n) is Some),
                    failed ==> !elements_fit(op, items@, *n),
                decreases items@.len() - i,
            {
                if !failed {
                    match &items[i].data {
                        ValueData::Scalar(f) => match apply_arith(op, f, n) {
                            Some(g) => out.push(Value::from_fraction(g)),
                            None => {
                                failed = true;
                            },
                        },
                        _ => out.push(items[i].duplicate()),
                    }
                }
                i = i + 1;
            }
            if failed {
                Err(AjisaiError::ArithmeticOverflow)
            } else {
                Ok(Value::from_vector(out))
            }
        },
        _ => Err(AjisaiError::TypeError { expected: "number or vector", got: "other type" }),
    };
    match result {
        Ok(v) => {
            interp.stack.push(v);
            Ok(())
        },
        Err(e) => Err(e),
    }
}

/// `R+`: add the register number to the top (element-wise over a vector).
pub fn op_r_add(interp: &mut Interpreter) -> (r: Result<(), AjisaiError>)
    ensures
        same_except_stack(final(interp), old(interp)),
        old(interp).stack@.len() == 0 ==> (r matches Err(AjisaiError::StackUnderflow))
            && final(interp).stack == old(interp).stack,
        old(interp).stack@.len() > 0 && old(interp).register is None ==> (r matches Err(
            AjisaiError::RegisterEmpty,
        )) && final(interp).stack@ == old(interp).stack@.drop_last(),
        (old(interp).stack@.len() > 0 && old(interp).register is Some) ==> ({
            let a = old(interp).stack@.last();
            let reg = old(interp).register.unwrap();
            &&& r is Ok ==> final(interp).stack@.drop_last() == old(interp).stack@.drop_last()
                && register_outcome(ArithOp::Add, a, reg, final(interp).stack@.last())
                && final(interp).stack@.len() == old(interp).stack@.len()
            &&& r matches Err(e) ==> register_fails_with(ArithOp::Add, a, reg, e) && final(interp).stack@ == old(interp).stack@.drop_last()
        }),
{
    register_word(interp, ArithOp::Add)
}

/// `R-`: subtract the register number from the top.
pub fn op_r_sub(interp: &mut Interpreter) -> (r: Result<(), AjisaiError>)
    ensures
        same_except_stack(final(interp), old(interp)),
        old(interp).stack@.len() == 0 ==> (r matches Err(AjisaiError::StackUnderflow))
            && final(interp).stack == old(interp).stack,
        old(interp).stack@.len() > 0 && old(interp).register is None ==> (r matches Err(
            AjisaiError::RegisterEmpty,
        )) && final(interp).stack@ == old(interp).stack@.drop_last(),
        (old(interp).stack@.len() > 0 && old(interp).register is Some) ==> ({
            let a = old(interp).stack@.last();
            let reg = old(interp).register.unwrap();
            &&& r is Ok ==> final(interp).stack@.drop_last() == old(interp).stack@.drop_last()
                && register_outcome(ArithOp::Sub, a, reg, final(interp).stack@.last())
                && final(interp).stack@.len() == old(interp).stack@.len()
            &&& r matches Err(e) ==> register_fails_with(ArithOp::Sub, a, reg, e) && final(interp).stack@ == old(interp).stack@.drop_last()
        }),
{
    register_word(interp, ArithOp::Sub)
}

/// `R*`: multiply the top by the register number.
pub fn op_r_mul(interp: &mut Interpreter) -> (r: Result<(), AjisaiError>)
    ensures
        same_except_stack(final(interp), old(interp)),
        old(interp).stack@.len() == 0 ==> (r matches Err(AjisaiError::StackUnderflow))
            && final(interp).stack == old(interp).stack,
        old(interp).stack@.len() > 0 && old(interp).register is None ==> (r matches Err(
            AjisaiError::RegisterEmpty,
        )) && final(interp).stack@ == old(interp).stack@.drop_last(),
        (old(interp).stack@.len() > 0 && old(interp).register is Some) ==> ({
            let a = old(interp).stack@.last();
            let reg = old(interp).register.unwrap();
            &&& r is Ok ==> final(interp).stack@.drop_last() == old(interp).stack@.drop_last()
                && register_outcome(ArithOp::Mul, a, reg, final(interp).stack@.last())
                && final(interp).stack@.len() == old(interp).stack@.len()
            &&& r matches Err(e) ==> register_fails_with(ArithOp::Mul, a, reg, e) && final(interp).stack@ == old(interp).stack@.drop_last()
        }),
{
    register_word(interp, ArithOp::Mul)
}

/// `R/`: divide the top by the register number; a zero register is
/// `DivisionByZero`.
pub fn op_r_div(interp: &mut Interpreter) -> (r: Result<(), AjisaiError>)
    ensures
        same_except_stack(final(interp), old(interp)),
        old(interp).stack@.len() == 0 ==> (r matches Err(AjisaiError::StackUnderflow))
            && final(interp).stack == old(interp).stack,
        old(interp).stack@.len() > 0 && old(interp).register is None ==> (r matches Err(
            AjisaiError::RegisterEmpty,
        )) && final(interp).stack@ == old(interp).stack@.drop_last(),
        (old(interp).stack@.len() > 0 && old(interp).register is Some) ==> ({
            let a = old(interp).stack@.last();
            let reg = old(interp).register.unwrap();
            &&& r is Ok ==> final(interp).stack@.drop_last() == old(interp).stack@.drop_last()
                && register_outcome(ArithOp::Div, a, reg, final(interp).stack@.last())
                && final(interp).stack@.len() == old(interp).stack@.len()
            &&& r matches Err(e) ==> register_fails_with(ArithOp::Div, a, reg, e) && final(interp).stack@ == old(interp).stack@.drop_last()
        }),
{
    register_word(interp, ArithOp::Div)
}

} // verus!
