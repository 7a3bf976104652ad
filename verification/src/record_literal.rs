//! A record literal `{ key value … }`: its elements alternate key and value,
//! and it builds exactly what `RECORD` builds from the two sequences, with
//! the constructor's own errors.
use crate::error::AjisaiError;
use crate::records::{first_repeat, keys_distinct, RecordBuildError};
use crate::text::{decimal_digits, decimal_text};
use crate::value::{values_view, RecordData, Value, ValueView};
use vstd::prelude::*;

verus! {

/// The elements at even positions: the keys.
pub open spec fn evens(s: Seq<ValueView>) -> Seq<ValueView> {
    Seq::new(((s.len() + 1) / 2) as nat, |i: int| s[2 * i])
}

/// The elements at odd positions: the values.
pub open spec fn odds(s: Seq<ValueView>) -> Seq<ValueView> {
    Seq::new((s.len() / 2) as nat, |i: int| s[2 * i + 1])
}

/// How a literal that repeats a key is reported.
pub open spec fn repeat_detail(first: int, second: int) -> Seq<char> {
    "a Record literal: the key at position "@ + decimal_digits(second as nat) + " repeats the key at position "@
        + decimal_digits(first as nat) + "; a Record holds each key once"@
}

/// Split a literal's elements into keys (even positions) and values (odd
/// positions) and build the record. An odd element count is the key
/// sequence one longer than the values; a repeated key is `duplicateKey`.
pub fn record_from_literal_elements(elements: Vec<Value>) -> (r: Result<RecordData, AjisaiError>)
    ensures
        ({
            let ks = evens(values_view(elements@));
            let vs = odds(values_view(elements@));
            &&& ks.len() != vs.len() ==> (r matches Err(AjisaiError::VectorLengthMismatch { len1, len2 })
                && len1 == ks.len() && len2 == vs.len())
            &&& ks.len() == vs.len() && keys_distinct(ks) ==> (r matches Ok(rec) && values_view(rec.keys@)
                == ks && values_view(rec.values@) == vs && rec.wf())
            &&& ks.len() == vs.len() && !keys_distinct(ks) ==> (r matches Err(
                AjisaiError::Declared { condition: c, detail: d },
            ) && c == "duplicateKey" && exists|f: int, s: int|
                first_repeat(ks, f, s) && d@ == #[trigger] repeat_detail(f, s))
        }),
{
    let ghost ev = values_view(elements@);
    proof {
        crate::value::lemma_values_view(elements@);
    }
    let mut keys: Vec<Value> = Vec::new();
    let mut values: Vec<Value> = Vec::new();
    let mut i: usize = 0;
    while i < elements.len()
        invariant
            0 <= i <= elements@.len(),
            ev == values_view(elements@),
            ev.len() == elements@.len(),
            forall|m: int| 0 <= m < elements@.len() ==> #[trigger] ev[m] == elements@[m]@,
            keys@.len() == (i + 1) / 2,
            values@.len() == i / 2,
            forall|m: int| 0 <= m < keys@.len() ==> (#[trigger] keys@[m])@ == ev[2 * m],
            forall|m: int| 0 <= m < values@.len() ==> (#[trigger] values@[m])@ == ev[2 * m + 1],
        decreases elements@.len() - i,
    {
        if i % 2 == 0 {
            keys.push(elements[i].duplicate());
        } else {
            values.push(elements[i].duplicate());
        }
        i = i + 1;
    }
    proof {
        crate::value::lemma_values_view(keys@);
        crate::value::lemma_values_view(values@);
        assert(values_view(keys@) =~= evens(ev));
        assert(values_view(values@) =~= odds(ev));
    }
    match RecordData::new(keys, values) {
        Ok(rec) => Ok(rec),
        Err(RecordBuildError::LengthMismatch { keys, values }) => Err(
            AjisaiError::VectorLengthMismatch { len1: keys, len2: values },
        ),
        Err(RecordBuildError::DuplicateKey { first, second }) => {
            let mut detail = String::from_str("a Record literal: the key at position ");
            let s = decimal_text(second);
            detail.append(s.as_str());
            detail.append(" repeats the key at position ");
            let f = decimal_text(first);
            detail.append(f.as_str());
            detail.append("; a Record holds each key once");
            proof {
                assert(first_repeat(evens(ev), first as int, second as int));
                assert(detail@ == repeat_detail(first as int, second as int));
            }
            Err(AjisaiError::Declared { condition: "duplicateKey", detail })
        },
    }
}

} // verus!
