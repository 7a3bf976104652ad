//! Whether a value may be updated in place: only a value whose storage no
//! other handle shares.
use crate::value::{shared_handle_count, Value, ValueData};
use vstd::prelude::*;

verus! {

#[derive(Clone, Copy, Debug, PartialEq, Eq, Structural)]
pub enum InPlaceJudgment {
    /// No other handle shares the value's storage.
    Safe,
    /// Another handle shares the value's storage.
    Aliased,
}

/// The judgment for a value whose shared storage has `handles` handles
/// (`None` for a value with no shared storage).
pub open spec fn judge_spec(handles: Option<usize>) -> InPlaceJudgment {
    match handles {
        Some(n) => if n == 1 {
            InPlaceJudgment::Safe
        } else {
            InPlaceJudgment::Aliased
        },
        None => InPlaceJudgment::Safe,
    }
}

/// The judgment from the number of handles on the value's shared storage.
pub fn judge_in_place(handles: Option<usize>) -> (r: InPlaceJudgment)
    ensures
        r == judge_spec(handles),
{
    match handles {
        Some(n) => if n == 1 {
            InPlaceJudgment::Safe
        } else {
            InPlaceJudgment::Aliased
        },
        None => InPlaceJudgment::Safe,
    }
}

/// How many handles share the value's storage, for a vector; `None` for a
/// value that holds no shared storage.
pub fn storage_handles(value: &Value) -> (r: Option<usize>)
    ensures
        r is Some <==> value.data is Vector,
{
    match &value.data {
        ValueData::Vector(items) => Some(shared_handle_count(items)),
        _ => None,
    }
}

/// Whether `value` can be updated in place: a value with no shared storage
/// always can; a vector can when its element list has no other handle.
pub fn check_in_place_candidate(value: &Value) -> (r: InPlaceJudgment)
    ensures
        !(value.data is Vector) ==> r == InPlaceJudgment::Safe,
{
    judge_in_place(storage_handles(value))
}

} // verus!
