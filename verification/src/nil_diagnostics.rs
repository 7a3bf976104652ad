//! `NIL?` and `NIL-REASON`: read what an operational NIL carries. Both
//! keep the value they read and push their answer above it.
use crate::error::AjisaiError;
use crate::interpreter::{same_except_stack, Interpreter};
use crate::value::{copy_string, Interpretation, NilReason, Recoverability, Value, ValueData};
use vstd::prelude::*;

verus! {

/// The lowerCamelCase protocol name of a NIL reason.
pub open spec fn reason_protocol(r: NilReason) -> &'static str {
    match r {
        NilReason::DivisionByZero => "divisionByZero",
        NilReason::DomainMiss => "domainMiss",
        NilReason::Undecidable => "undecidable",
        NilReason::SpaceExhausted => "spaceExhausted",
        NilReason::NotFound => "notFound",
        NilReason::MissingField => "missingField",
        NilReason::UserDeclared => "userDeclared",
        NilReason::InvalidEncoding => "invalidEncoding",
        NilReason::NotAvailable => "notAvailable",
    }
}

pub fn reason_protocol_str(r: NilReason) -> (s: &'static str)
    ensures
        s == reason_protocol(r),
{
    match r {
        NilReason::DivisionByZero => "divisionByZero",
        NilReason::DomainMiss => "domainMiss",
        NilReason::Undecidable => "undecidable",
        NilReason::SpaceExhausted => "spaceExhausted",
        NilReason::NotFound => "notFound",
        NilReason::MissingField => "missingField",
        NilReason::UserDeclared => "userDeclared",
        NilReason::InvalidEncoding => "invalidEncoding",
        NilReason::NotAvailable => "notAvailable",
    }
}

/// The text `NIL-REASON` answers for `v`: the declared text of a
/// user-declared NIL, the protocol name of any other reason; `None` when `v`
/// is not an operational NIL with a reason.
pub open spec fn nil_reason_text(v: Value) -> Option<Seq<char>> {
    match v.data {
        ValueData::Nil => match v.absence {
            Some(m) => match m.reason {
                Some(r) => if r == NilReason::UserDeclared && m.detail is Some {
                    Some(m.detail.unwrap()@)
                } else {
                    Some(reason_protocol(r)@)
                },
                None => None,
            },
            None => None,
        },
        _ => None,
    }
}

/// `NIL?`: push `TRUE` above the top when it is an operational NIL (U is
/// not), `FALSE` otherwise; the inspected value stays.
pub fn op_nil_check(interp: &mut Interpreter) -> (r: Result<(), AjisaiError>)
    ensures
        same_except_stack(final(interp), old(interp)),
        old(interp).stack@.len() == 0 ==> (r matches Err(AjisaiError::StackUnderflow))
            && final(interp).stack == old(interp).stack,
        old(interp).stack@.len() > 0 ==> r is Ok && final(interp).stack@.len() == old(interp).stack@.len() + 1
            && final(interp).stack@.drop_last() == old(interp).stack@ && final(interp).stack@.last().data
            == ValueData::Boolean(old(interp).stack@.last().data is Nil) && final(interp).stack@.last().absence is None,
{
    if interp.stack.len() == 0 {
        return Err(AjisaiError::StackUnderflow);
    }
    let n = interp.stack.len();
    let answer = Value::from_bool(interp.stack[n - 1].is_operational_nil());
    interp.stack.push(answer);
    Ok(())
}

/// `NIL-REASON`: push the text of the top's reason above it; a value that is
/// not a reasoned operational NIL projects a `notAvailable` NIL. The
/// inspected value stays.
pub fn op_nil_reason(interp: &mut Interpreter) -> (r: Result<(), AjisaiError>)
    ensures
        same_except_stack(final(interp), old(interp)),
        old(interp).stack@.len() == 0 ==> (r matches Err(AjisaiError::StackUnderflow))
            && final(interp).stack == old(interp).stack,
        old(interp).stack@.len() > 0 ==> r is Ok && final(interp).stack@.len() == old(interp).stack@.len() + 1
            && final(interp).stack@.drop_last() == old(interp).stack@ && (
        match nil_reason_text(old(interp).stack@.last()) {
            Some(t) => final(interp).stack@.last().data matches ValueData::Text(s) && s@ == t
                && final(interp).stack@.last().hint == Interpretation::Text,
            None => final(interp).stack@.last().data is Nil && (final(interp).stack@.last().absence
                matches Some(m) && m.reason == Some(NilReason::NotAvailable) && m.recoverability
                == Recoverability::Unknown),
        }),
{
    if interp.stack.len() == 0 {
        return Err(AjisaiError::StackUnderflow);
    }
    let n = interp.stack.len();
    let value = &interp.stack[n - 1];
    let answer = match (&value.data, &value.absence) {
        (ValueData::Nil, Some(m)) => match m.reason {
            Some(reason) => match (&reason, &m.detail) {
                (NilReason::UserDeclared, Some(detail)) => {
                    let mut v = Value::from_string("");
                    v.data = ValueData::Text(copy_string(detail));
                    v
                },
                _ => Value::from_string(reason_protocol_str(reason)),
            },
            None => Value::nil_with_reason_unknown(NilReason::NotAvailable),
        },
        _ => Value::nil_with_reason_unknown(NilReason::NotAvailable),
    };
    interp.stack.push(answer);
    Ok(())
}

} // verus!
