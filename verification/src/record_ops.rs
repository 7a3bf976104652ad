//! The record words: `RECORD`, `KEYS`, `VALUES`, `AT`, `WITH`, `WITHOUT`,
//! `HAS?`, `MERGE`. Every word puts its operands back before it raises, and
//! every record it answers is a new value.
use crate::error::AjisaiError;
use crate::interpreter::{
    base_after, extract_operands, keeping, restore_operand, restore_operands, same_except_stack,
    take_operand, top_views, Interpreter,
};
use crate::records::{first_repeat, key_index, keys_distinct, rec_get, rec_merge, rec_with, rec_without, RecordBuildError};
use crate::text::{decimal_digits, decimal_text};
use crate::value::{
    copy_values, domain_of, values_view, vector_items, AbsenceView, DataView, Interpretation,
    NilReason, RecordData, Recoverability, Value, ValueData, ValueView,
};
use vstd::prelude::*;

verus! {

/// The keys and values of a record, by view.
pub open spec fn record_parts(v: ValueView) -> Option<(Seq<ValueView>, Seq<ValueView>)> {
    match v.data {
        DataView::Record(k, w) => Some((k, w)),
        _ => None,
    }
}

/// A plain value with the given data: automatic role, no absence.
pub open spec fn plain(data: DataView) -> ValueView {
    ValueView { data, hint: Interpretation::Auto, absence: None }
}

/// The `notFound` absence `AT` and `WITHOUT` answer for a key the record
/// does not hold.
pub open spec fn not_found_view() -> ValueView {
    ValueView {
        data: DataView::Nil,
        hint: Interpretation::Nil,
        absence: Some(
            AbsenceView {
                reason: Some(NilReason::NotFound),
                recoverability: Recoverability::Recoverable,
                detail: None,
            },
        ),
    }
}

/// The final stack is `base` with one value of view `v` on top.
pub open spec fn pushed_one(fin: Seq<Value>, base: Seq<Value>, v: ValueView) -> bool {
    &&& fin.len() == base.len() + 1
    &&& fin.drop_last() == base
    &&& fin.last()@ == v
}

/// The text of the `nonRecord` condition.
pub open spec fn non_record_text(position: Seq<char>, got: DataView) -> Seq<char> {
    "expected a Record as "@ + position + ", got "@ + domain_of(got)@
}

/// The text of the `duplicateKey` condition.
pub open spec fn duplicate_key_text(first: nat, second: nat) -> Seq<char> {
    "the key at position "@ + decimal_digits(second) + " repeats the key at position "@
        + decimal_digits(first) + "; a Record holds each key once"@
}

/// The raised condition is `nonRecord` with the text for `position` and
/// the value found there.
pub open spec fn is_non_record(e: AjisaiError, position: Seq<char>, got: ValueView) -> bool {
    e matches AjisaiError::Declared { condition: c, detail: d } && c == "nonRecord" && d@
        == non_record_text(position, got.data)
}

/// The elements of a vector operand, or a structure error naming what was
/// expected instead.
pub fn elements_of(value: &Value, expected: &'static str) -> (r: Result<Vec<Value>, AjisaiError>)
    ensures
        match vector_items(value@) {
            Some(items) => r matches Ok(v) && values_view(v@) == items,
            None => r matches Err(AjisaiError::StructureError { expected: e, got: g }) && e
                == expected && g == "non-vector value",
        },
{
    match &value.data {
        ValueData::Vector(items) => Ok(copy_values(&**items)),
        _ => Err(AjisaiError::StructureError { expected, got: "non-vector value" }),
    }
}

fn non_record(position: &str, got: &Value) -> (r: AjisaiError)
    ensures
        is_non_record(r, position@, got@),
{
    let mut detail = String::from_str("expected a Record as ");
    detail.append(position);
    detail.append(", got ");
    detail.append(got.domain_name());
    AjisaiError::Declared { condition: "nonRecord", detail }
}

fn duplicate_key(first: usize, second: usize) -> (r: AjisaiError)
    ensures
        r matches AjisaiError::Declared { condition: c, detail: d } && c == "duplicateKey" && d@
            == duplicate_key_text(first as nat, second as nat),
{
    let mut detail = String::from_str("the key at position ");
    let s = decimal_text(second);
    detail.append(s.as_str());
    detail.append(" repeats the key at position ");
    let f = decimal_text(first);
    detail.append(f.as_str());
    detail.append("; a Record holds each key once");
    AjisaiError::Declared { condition: "duplicateKey", detail }
}

fn not_found() -> (r: Value)
    ensures
        r@ == not_found_view(),
{
    Value::nil_with_reason(NilReason::NotFound, Recoverability::Recoverable)
}

fn record_value(record: RecordData) -> (r: Value)
    ensures
        r@ == plain(DataView::Record(record.key_views(), record.value_views())),
{
    Value::from_record(record)
}

/// `RECORD ( [ keys ] [ values ] -> [ record ] )`.
pub fn op_record(interp: &mut Interpreter) -> (r: Result<(), AjisaiError>)
    ensures
        same_except_stack(final(interp), old(interp)),
        old(interp).stack@.len() < 2 ==> (r matches Err(AjisaiError::StackUnderflow)),
        r is Err ==> final(interp).stack@ == old(interp).stack@,
        old(interp).stack@.len() >= 2 ==> {
            let ops = top_views(old(interp).stack@, 2);
            match (vector_items(ops[0]), vector_items(ops[1])) {
                (None, _) => r matches Err(AjisaiError::StructureError { expected: e, got: g }) && e
                    == "a Vector of keys as the first operand" && g == "non-vector value",
                (Some(_), None) => r matches Err(AjisaiError::StructureError { expected: e, got: g })
                    && e == "a Vector of values as the second operand" && g == "non-vector value",
                (Some(ks), Some(vs)) => if ks.len() != vs.len() {
                    r matches Err(AjisaiError::VectorLengthMismatch { len1, len2 }) && len1
                        == ks.len() && len2 == vs.len()
                } else if !keys_distinct(ks) {
                    r matches Err(AjisaiError::Declared { condition: c, detail: d }) && c
                        == "duplicateKey" && exists|f: int, s: int|
                        first_repeat(ks, f, s) && d@ == #[trigger] duplicate_key_text(f as nat, s as nat)
                } else {
                    r is Ok && pushed_one(
                        final(interp).stack@,
                        base_after(old(interp), 2),
                        plain(DataView::Record(ks, vs)),
                    )
                },
            }
        },
{
    let operands = extract_operands(interp, 2)?;
    let ghost ops = top_views(old(interp).stack@, 2);
    proof {
        assert(ops[0] == operands@[0]@);
        assert(ops[1] == operands@[1]@);
    }
    let keys = match elements_of(&operands[0], "a Vector of keys as the first operand") {
        Ok(k) => k,
        Err(e) => {
            restore_operands(interp, operands);
            proof {
                if !keeping(old(interp)) {
                    assert(old(interp).stack@ =~= base_after(old(interp), 2) + operands@);
                }
            }
            return Err(e);
        },
    };
    let values = match elements_of(&operands[1], "a Vector of values as the second operand") {
        Ok(v) => v,
        Err(e) => {
            restore_operands(interp, operands);
            proof {
                if !keeping(old(interp)) {
                    assert(old(interp).stack@ =~= base_after(old(interp), 2) + operands@);
                }
            }
            return Err(e);
        },
    };
    proof {
        crate::value::lemma_values_view(keys@);
        crate::value::lemma_values_view(values@);
    }
    let ghost kv = values_view(keys@);
    match RecordData::new(keys, values) {
        Ok(record) => {
            interp.stack.push(record_value(record));
            proof {
                assert(interp.stack@.drop_last() =~= base_after(old(interp), 2));
            }
            Ok(())
        },
        Err(RecordBuildError::LengthMismatch { keys, values }) => {
            restore_operands(interp, operands);
            proof {
                if !keeping(old(interp)) {
                    assert(old(interp).stack@ =~= base_after(old(interp), 2) + operands@);
                }
            }
            Err(AjisaiError::VectorLengthMismatch { len1: keys, len2: values })
        },
        Err(RecordBuildError::DuplicateKey { first, second }) => {
            restore_operands(interp, operands);
            proof {
                if !keeping(old(interp)) {
                    assert(old(interp).stack@ =~= base_after(old(interp), 2) + operands@);
                }
            }
            let e = duplicate_key(first, second);
            proof {
                let fi = first as int;
                let si = second as int;
                assert(first_repeat(kv, fi, si));
                assert(duplicate_key_text(fi as nat, si as nat) == duplicate_key_text(first as nat, second as nat));
            }
            Err(e)
        },
    }
}

/// `KEYS ( [ record ] -> [ keys ] )`.
pub fn op_keys(interp: &mut Interpreter) -> (r: Result<(), AjisaiError>)
    ensures
        same_except_stack(final(interp), old(interp)),
        old(interp).stack@.len() == 0 ==> (r matches Err(AjisaiError::StackUnderflow)),
        r is Err ==> final(interp).stack@ == old(interp).stack@,
        old(interp).stack@.len() > 0 ==> {
            let top = old(interp).stack@.last()@;
            match record_parts(top) {
                None => r matches Err(e) && is_non_record(e, "its operand"@, top),
                Some((ks, _)) => r is Ok && pushed_one(
                    final(interp).stack@,
                    base_after(old(interp), 1),
                    plain(DataView::Vector(ks)),
                ),
            }
        },
{
    let operand = take_operand(interp)?;
    match &operand.data {
        ValueData::Record(record) => {
            let keys = copy_values(&record.keys);
            interp.stack.push(Value::from_vector(keys));
            proof {
                assert(operand@.data == DataView::Record(record.key_views(), record.value_views()));
                assert(interp.stack@.drop_last() =~= base_after(old(interp), 1));
            }
            Ok(())
        },
        _ => {
            let err = non_record("its operand", &operand);
            restore_operand(interp, operand);
            proof {
                if !keeping(old(interp)) {
                    assert(old(interp).stack@ =~= old(interp).stack@.drop_last().push(
                        old(interp).stack@.last(),
                    ));
                }
            }
            Err(err)
        },
    }
}

/// `VALUES ( [ record ] -> [ values ] )`.
pub fn op_values(interp: &mut Interpreter) -> (r: Result<(), AjisaiError>)
    ensures
        same_except_stack(final(interp), old(interp)),
        old(interp).stack@.len() == 0 ==> (r matches Err(AjisaiError::StackUnderflow)),
        r is Err ==> final(interp).stack@ == old(interp).stack@,
        old(interp).stack@.len() > 0 ==> {
            let top = old(interp).stack@.last()@;
            match record_parts(top) {
                None => r matches Err(e) && is_non_record(e, "its operand"@, top),
                Some((_, vs)) => r is Ok && pushed_one(
                    final(interp).stack@,
                    base_after(old(interp), 1),
                    plain(DataView::Vector(vs)),
                ),
            }
        },
{
    let operand = take_operand(interp)?;
    match &operand.data {
        ValueData::Record(record) => {
            let values = copy_values(&record.values);
            interp.stack.push(Value::from_vector(values));
            proof {
                assert(operand@.data == DataView::Record(record.key_views(), record.value_views()));
                assert(interp.stack@.drop_last() =~= base_after(old(interp), 1));
            }
            Ok(())
        },
        _ => {
            let err = non_record("its operand", &operand);
            restore_operand(interp, operand);
            proof {
                if !keeping(old(interp)) {
                    assert(old(interp).stack@ =~= old(interp).stack@.drop_last().push(
                        old(interp).stack@.last(),
                    ));
                }
            }
            Err(err)
        },
    }
}

/// After a failed word has put back the operands it took, the stack is as
/// it was.
proof fn lemma_restored(o: Seq<Value>, n: int, operands: Seq<Value>)
    requires
        0 <= n <= o.len(),
        operands == o.subrange(o.len() - n, o.len() as int),
    ensures
        o.subrange(0, o.len() - n) + operands == o,
{
    assert(o.subrange(0, o.len() - n) + operands =~= o);
}

/// `AT ( [ record ] [ key ] -> [ value ] )`: the value under the key, or
/// the `notFound` absence.
pub fn op_at(interp: &mut Interpreter) -> (r: Result<(), AjisaiError>)
    ensures
        same_except_stack(final(interp), old(interp)),
        old(interp).stack@.len() < 2 ==> (r matches Err(AjisaiError::StackUnderflow)),
        r is Err ==> final(interp).stack@ == old(interp).stack@,
        old(interp).stack@.len() >= 2 ==> {
            let ops = top_views(old(interp).stack@, 2);
            match record_parts(ops[0]) {
                None => r matches Err(e) && is_non_record(e, "the first operand"@, ops[0]),
                Some((ks, vs)) => r is Ok && pushed_one(
                    final(interp).stack@,
                    base_after(old(interp), 2),
                    match rec_get(ks, vs, ops[1]) {
                        Some(v) => v,
                        None => not_found_view(),
                    },
                ),
            }
        },
{
    let operands = extract_operands(interp, 2)?;
    let ghost ops = top_views(old(interp).stack@, 2);
    proof {
        assert(ops[0] == operands@[0]@);
        assert(ops[1] == operands@[1]@);
    }
    match &operands[0].data {
        ValueData::Record(record) => {
            let answer = match record.get(&operands[1]) {
                Some(v) => v.duplicate(),
                None => not_found(),
            };
            interp.stack.push(answer);
            proof {
                assert(interp.stack@.drop_last() =~= base_after(old(interp), 2));
            }
            Ok(())
        },
        _ => {
            let err = non_record("the first operand", &operands[0]);
            proof {
                if !keeping(old(interp)) {
                    lemma_restored(old(interp).stack@, 2, operands@);
                }
            }
            restore_operands(interp, operands);
            Err(err)
        },
    }
}

/// `WITH ( [ record ] [ key ] [ value ] -> [ record ] )`: a NIL value is a
/// stored absence and belongs under its key; a NIL key is malformed use.
pub fn op_with(interp: &mut Interpreter) -> (r: Result<(), AjisaiError>)
    ensures
        same_except_stack(final(interp), old(interp)),
        old(interp).stack@.len() < 3 ==> (r matches Err(AjisaiError::StackUnderflow)),
        r is Err ==> final(interp).stack@ == old(interp).stack@,
        old(interp).stack@.len() >= 3 ==> {
            let ops = top_views(old(interp).stack@, 3);
            match record_parts(ops[0]) {
                None => r matches Err(e) && is_non_record(e, "the first operand"@, ops[0]),
                Some((ks, vs)) => if ops[1].data is Nil {
                    r matches Err(e) && is_non_record(e, "the key"@, ops[1])
                } else {
                    r is Ok && pushed_one(
                        final(interp).stack@,
                        base_after(old(interp), 3),
                        plain(
                            DataView::Record(
                                rec_with(ks, vs, ops[1], ops[2]).0,
                                rec_with(ks, vs, ops[1], ops[2]).1,
                            ),
                        ),
                    )
                },
            }
        },
{
    let operands = extract_operands(interp, 3)?;
    let ghost ops = top_views(old(interp).stack@, 3);
    proof {
        assert(ops[0] == operands@[0]@);
        assert(ops[1] == operands@[1]@);
        assert(ops[2] == operands@[2]@);
        if !keeping(old(interp)) {
            lemma_restored(old(interp).stack@, 3, operands@);
        }
    }
    match &operands[0].data {
        ValueData::Record(record) => {
            if operands[1].is_operational_nil() {
                let err = non_record("the key", &operands[1]);
                restore_operands(interp, operands);
                return Err(err);
            }
            let next = record.with(operands[1].duplicate(), operands[2].duplicate());
            interp.stack.push(record_value(next));
            proof {
                assert(interp.stack@.drop_last() =~= base_after(old(interp), 3));
            }
            Ok(())
        },
        _ => {
            let err = non_record("the first operand", &operands[0]);
            restore_operands(interp, operands);
            Err(err)
        },
    }
}

/// `WITHOUT ( [ record ] [ key ] -> [ record ] )`: the record without the
/// key, or the `notFound` absence when it does not hold it.
pub fn op_without(interp: &mut Interpreter) -> (r: Result<(), AjisaiError>)
    ensures
        same_except_stack(final(interp), old(interp)),
        old(interp).stack@.len() < 2 ==> (r matches Err(AjisaiError::StackUnderflow)),
        r is Err ==> final(interp).stack@ == old(interp).stack@,
        old(interp).stack@.len() >= 2 ==> {
            let ops = top_views(old(interp).stack@, 2);
            match record_parts(ops[0]) {
                None => r matches Err(e) && is_non_record(e, "the first operand"@, ops[0]),
                Some((ks, vs)) => r is Ok && pushed_one(
                    final(interp).stack@,
                    base_after(old(interp), 2),
                    match rec_without(ks, vs, ops[1]) {
                        Some((k2, v2)) => plain(DataView::Record(k2, v2)),
                        None => not_found_view(),
                    },
                ),
            }
        },
{
    let operands = extract_operands(interp, 2)?;
    let ghost ops = top_views(old(interp).stack@, 2);
    proof {
        assert(ops[0] == operands@[0]@);
        assert(ops[1] == operands@[1]@);
        if !keeping(old(interp)) {
            lemma_restored(old(interp).stack@, 2, operands@);
        }
    }
    match &operands[0].data {
        ValueData::Record(record) => {
            let answer = match record.without(&operands[1]) {
                Some(next) => record_value(next),
                None => not_found(),
            };
            interp.stack.push(answer);
            proof {
                assert(interp.stack@.drop_last() =~= base_after(old(interp), 2));
            }
            Ok(())
        },
        _ => {
            let err = non_record("the first operand", &operands[0]);
            restore_operands(interp, operands);
            Err(err)
        },
    }
}

/// `HAS? ( [ record ] [ key ] -> [ TRUE | FALSE ] )`.
pub fn op_has(interp: &mut Interpreter) -> (r: Result<(), AjisaiError>)
    ensures
        same_except_stack(final(interp), old(interp)),
        old(interp).stack@.len() < 2 ==> (r matches Err(AjisaiError::StackUnderflow)),
        r is Err ==> final(interp).stack@ == old(interp).stack@,
        old(interp).stack@.len() >= 2 ==> {
            let ops = top_views(old(interp).stack@, 2);
            match record_parts(ops[0]) {
                None => r matches Err(e) && is_non_record(e, "the first operand"@, ops[0]),
                Some((ks, vs)) => r is Ok && pushed_one(
                    final(interp).stack@,
                    base_after(old(interp), 2),
                    plain(DataView::Boolean(key_index(ks, ops[1]) >= 0)),
                ),
            }
        },
{
    let operands = extract_operands(interp, 2)?;
    let ghost ops = top_views(old(interp).stack@, 2);
    proof {
        assert(ops[0] == operands@[0]@);
        assert(ops[1] == operands@[1]@);
        if !keeping(old(interp)) {
            lemma_restored(old(interp).stack@, 2, operands@);
        }
    }
    match &operands[0].data {
        ValueData::Record(record) => {
            let present = record.has(&operands[1]);
            interp.stack.push(Value::from_bool(present));
            proof {
                assert(interp.stack@.drop_last() =~= base_after(old(interp), 2));
            }
            Ok(())
        },
        _ => {
            let err = non_record("the first operand", &operands[0]);
            restore_operands(interp, operands);
            Err(err)
        },
    }
}

/// `MERGE ( [ record ] [ record ] -> [ record ] )`: the right-biased union.
pub fn op_merge(interp: &mut Interpreter) -> (r: Result<(), AjisaiError>)
    ensures
        same_except_stack(final(interp), old(interp)),
        old(interp).stack@.len() < 2 ==> (r matches Err(AjisaiError::StackUnderflow)),
        r is Err ==> final(interp).stack@ == old(interp).stack@,
        old(interp).stack@.len() >= 2 ==> {
            let ops = top_views(old(interp).stack@, 2);
            match (record_parts(ops[0]), record_parts(ops[1])) {
                (None, _) => r matches Err(e) && is_non_record(e, "the first operand"@, ops[0]),
                (Some(_), None) => r matches Err(e) && is_non_record(
                    e,
                    "the second operand"@,
                    ops[1],
                ),
                (Some((k1, v1)), Some((k2, v2))) => r is Ok && pushed_one(
                    final(interp).stack@,
                    base_after(old(interp), 2),
                    plain(DataView::Record(rec_merge(k1, v1, k2, v2).0, rec_merge(k1, v1, k2, v2).1)),
                ),
            }
        },
{
    let operands = extract_operands(interp, 2)?;
    let ghost ops = top_views(old(interp).stack@, 2);
    proof {
        assert(ops[0] == operands@[0]@);
        assert(ops[1] == operands@[1]@);
        if !keeping(old(interp)) {
            lemma_restored(old(interp).stack@, 2, operands@);
        }
    }
    match (&operands[0].data, &operands[1].data) {
        (ValueData::Record(left), ValueData::Record(right)) => {
            let merged = left.merge(right);
            interp.stack.push(record_value(merged));
            proof {
                assert(interp.stack@.drop_last() =~= base_after(old(interp), 2));
            }
            Ok(())
        },
        (ValueData::Record(_), _) => {
            let err = non_record("the second operand", &operands[1]);
            restore_operands(interp, operands);
            Err(err)
        },
        _ => {
            let err = non_record("the first operand", &operands[0]);
            restore_operands(interp, operands);
            Err(err)
        },
    }
}

} // verus!
