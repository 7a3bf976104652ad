//! Flow tokens: the mass a value carries through a computation, and the
//! in-place judgment that consults one. A value may be updated in place
//! only while its token is whole (nothing consumed, not split, not derived
//! from another flow) and no other handle shares its storage.
use crate::error::AjisaiError;
use crate::in_place::{judge_in_place, judge_spec, storage_handles, InPlaceJudgment as Sharing};
use crate::rational::{fits_i64_parts, reduced_parts, Fraction};
use crate::value::{Value, ValueData};
use vstd::prelude::*;

verus! {

/// The mass a flow carries and how it was derived.
pub struct FlowToken {
    /// The mass the flow started with.
    pub total: Fraction,
    /// The mass not yet consumed.
    pub remaining: Fraction,
    /// The flow this one was split from, if any.
    pub parent_flow_id: Option<u64>,
    /// The flows split from this one.
    pub child_flow_ids: Vec<u64>,
    /// The share of its parent's mass this flow carries, as a ratio.
    pub mass_ratio: (u64, u64),
}

/// The verdict of the in-place check.
#[derive(Clone, Copy, Debug, PartialEq, Eq, Structural)]
pub enum InPlaceJudgment {
    /// The update may happen in place.
    Safe,
    /// Another handle shares the value's storage.
    Aliased,
    /// The flow is not whole: part of it was consumed, it was split, or it
    /// derives from another flow.
    PartiallyConsumed,
    /// There is no flow to consult.
    NoFlowContext,
}

/// The mass of a value: a number's magnitude, a vector's element count,
/// nothing for NIL, one for any other value.
pub open spec fn mass_parts(value: Value) -> (int, int) {
    match value.data {
        ValueData::Scalar(f) => (if f.num() < 0 {
            -f.num()
        } else {
            f.num()
        }, f.den()),
        ValueData::Vector(items) => ((*items)@.len() as int, 1),
        ValueData::Nil => (0, 1),
        _ => (1, 1),
    }
}

/// The reduced parts of `a - b`.
pub open spec fn remainder_parts(a: Fraction, b: Fraction) -> (int, int) {
    reduced_parts(a.num() * b.den() - b.num() * a.den(), a.den() * b.den())
}

impl FlowToken {
    /// The flow is whole: nothing consumed, no parent, no children, and the
    /// full share of its mass.
    pub open spec fn whole(&self) -> bool {
        &&& self.remaining.same_rational(self.total)
        &&& self.parent_flow_id is None
        &&& self.child_flow_ids@.len() == 0
        &&& self.mass_ratio == (1u64, 1u64)
    }

    /// A fresh, whole flow carrying the mass of `value`.
    pub fn from_value(value: &Value) -> (r: FlowToken)
        requires
            value.data matches ValueData::Vector(items) ==> (*items)@.len() < i64::MAX,
        ensures
            r.whole(),
            (r.total.num(), r.total.den()) == mass_parts(*value),
            r.remaining == r.total,
    {
        let total = match &value.data {
            ValueData::Scalar(f) => {
                f.bounds();
                if f.numerator() < 0 {
                    f.neg()
                } else {
                    *f
                }
            },
            ValueData::Vector(items) => Fraction::from_int(items.len() as i64).unwrap(),
            ValueData::Nil => Fraction::from_int(0).unwrap(),
            _ => Fraction::from_int(1).unwrap(),
        };
        FlowToken {
            total,
            remaining: total,
            parent_flow_id: None,
            child_flow_ids: Vec::new(),
            mass_ratio: (1, 1),
        }
    }

    /// Whether the flow's allocation can be reused: the flow is whole.
    pub fn is_reusable_allocation(&self) -> (r: bool)
        ensures
            r == self.whole(),
    {
        self.remaining.eq_value(&self.total) && self.parent_flow_id.is_none()
            && self.child_flow_ids.len() == 0 && self.mass_ratio.0 == 1 && self.mass_ratio.1 == 1
    }

    /// Take `amount` of the remaining mass: the amount taken and the flow
    /// left behind. A negative amount, or more than remains, is refused; so
    /// is a remainder too large for the library's 64-bit rationals.
    pub fn consume(&self, amount: &Fraction) -> (r: Result<(Fraction, FlowToken), AjisaiError>)
        ensures
            amount.num() < 0 ==> (r matches Err(AjisaiError::Message(m)) && m@
                == "a flow cannot take a negative amount"@),
            amount.num() >= 0 && self.remaining.less_than(*amount) ==> (r matches Err(AjisaiError::Message(m)) && m@
                == "a flow cannot take more than remains"@),
            amount.num() >= 0 && !self.remaining.less_than(*amount) ==> if fits_i64_parts(
                remainder_parts(self.remaining, *amount),
            ) {
                r matches Ok((_, rest)) && (rest.remaining.num(), rest.remaining.den()) == remainder_parts(
                    self.remaining,
                    *amount,
                )
            } else {
                r matches Err(AjisaiError::ArithmeticOverflow)
            },
            r matches Ok((taken, rest)) ==> {
                &&& taken == *amount
                &&& amount.num() >= 0
                &&& !self.remaining.less_than(*amount)
                &&& rest.total == self.total
                &&& rest.parent_flow_id == self.parent_flow_id
                &&& rest.child_flow_ids@ == self.child_flow_ids@
                &&& rest.mass_ratio == self.mass_ratio
                &&& rest.remaining.num() * (self.remaining.den() * amount.den()) == (
                self.remaining.num() * amount.den() - amount.num() * self.remaining.den())
                    * rest.remaining.den()
            },
    {
        if amount.numerator() < 0 {
            return Err(AjisaiError::message("a flow cannot take a negative amount"));
        }
        if self.remaining.lt(amount) {
            return Err(AjisaiError::message("a flow cannot take more than remains"));
        }
        match self.remaining.sub(amount) {
            Some(rest) => {
                let mut children: Vec<u64> = Vec::new();
                let mut i: usize = 0;
                while i < self.child_flow_ids.len()
                    invariant
                        0 <= i <= self.child_flow_ids@.len(),
                        children@ == self.child_flow_ids@.take(i as int),
                    decreases self.child_flow_ids@.len() - i,
                {
                    children.push(self.child_flow_ids[i]);
                    i = i + 1;
                    proof {
                        assert(children@ =~= self.child_flow_ids@.take(i as int));
                    }
                }
                proof {
                    assert(children@ =~= self.child_flow_ids@);
                }
                Ok(
                    (
                        *amount,
                        FlowToken {
                            total: self.total,
                            remaining: rest,
                            parent_flow_id: self.parent_flow_id,
                            child_flow_ids: children,
                            mass_ratio: self.mass_ratio,
                        },
                    ),
                )
            },
            None => Err(AjisaiError::ArithmeticOverflow),
        }
    }

    /// Whether `value` may be updated in place under this flow: the flow is
    /// whole and the value's storage is not shared.
    pub fn can_update_in_place(&self, value: &Value) -> (r: bool)
        ensures
            r ==> self.whole(),
            !(value.data is Vector) ==> r == self.whole(),
    {
        self.is_reusable_allocation() && is_uniquely_owned(value)
    }
}

/// No other handle shares the value's storage.
pub fn is_uniquely_owned(value: &Value) -> (r: bool)
    ensures
        !(value.data is Vector) ==> r,
{
    judge_in_place(storage_handles(value)) == Sharing::Safe
}

/// The judgment from whether there is a flow, whether it is whole, and how
/// many handles share the value's storage.
pub open spec fn flow_judge_spec(flow_whole: Option<bool>, handles: Option<usize>) -> InPlaceJudgment {
    match flow_whole {
        None => InPlaceJudgment::NoFlowContext,
        Some(whole) => if !whole {
            InPlaceJudgment::PartiallyConsumed
        } else if judge_spec(handles) == Sharing::Aliased {
            InPlaceJudgment::Aliased
        } else {
            InPlaceJudgment::Safe
        },
    }
}

pub fn judge_flow(flow_whole: Option<bool>, handles: Option<usize>) -> (r: InPlaceJudgment)
    ensures
        r == flow_judge_spec(flow_whole, handles),
{
    match flow_whole {
        None => InPlaceJudgment::NoFlowContext,
        Some(whole) => if !whole {
            InPlaceJudgment::PartiallyConsumed
        } else if judge_in_place(handles) == Sharing::Aliased {
            InPlaceJudgment::Aliased
        } else {
            InPlaceJudgment::Safe
        },
    }
}

/// Whether `value` may be updated in place under `flow`: without a flow
/// there is nothing to consult; a flow that is not whole forbids it; then
/// the value's storage must not be shared.
pub fn check_in_place_candidate(value: &Value, flow: Option<&FlowToken>) -> (r: InPlaceJudgment)
    ensures
        flow is None ==> r == InPlaceJudgment::NoFlowContext,
        flow matches Some(f) ==> (!f.whole() <==> r == InPlaceJudgment::PartiallyConsumed),
        flow matches Some(f) ==> (f.whole() && !(value.data is Vector) ==> r == InPlaceJudgment::Safe),
{
    let whole = match flow {
        None => None,
        Some(f) => Some(f.is_reusable_allocation()),
    };
    judge_flow(whole, storage_handles(value))
}

/// The in-place check agrees with `can_update_in_place`: it answers `Safe`
/// exactly when the flow is whole and the storage is not shared.
pub proof fn law_check_agrees_with_can_update(whole: bool, handles: Option<usize>)
    ensures
        (flow_judge_spec(Some(whole), handles) == InPlaceJudgment::Safe) == (whole && judge_spec(handles)
            == Sharing::Safe),
{
}

} // verus!
