//! The ordering and grouping words: `ORDER`, `UNIQUE`, `TALLY`, `GROUP`.
use crate::error::AjisaiError;
use crate::interpreter::{base_after, keeping, restore_operand, same_except_stack, take_operand, Interpreter};
use crate::ordering::{is_stable_order, scan_distinct, scan_groups, stable_order, lemma_scan_distinct_shape};
use crate::rational::Fraction;
use crate::record_ops::{elements_of, pushed_one};
use crate::records::{find_key, key_index, lemma_key_index};
use crate::value::{copy_values, lemma_values_view, values_view, vector_items, DataView, Interpretation, RecordData, Value, ValueView};
use vstd::prelude::*;

verus! {

/// The number a value holds, when it is a number.
pub open spec fn scalar_of(v: ValueView) -> Option<Fraction> {
    match v.data {
        DataView::Scalar(f) => Some(f),
        _ => None,
    }
}

pub open spec fn all_numbers(items: Seq<ValueView>) -> bool {
    forall|i: int| 0 <= i < items.len() ==> (#[trigger] scalar_of(items[i])) is Some
}

/// `v` is the whole number `n`, built plainly.
pub open spec fn is_int_view(v: ValueView, n: int) -> bool {
    &&& v.data matches DataView::Scalar(f) && f.num() == n && f.den() == 1
    &&& v.hint == Interpretation::Auto
    &&& v.absence is None
}

/// The numbers of a list of number values.
pub open spec fn numbers_of(items: Seq<ValueView>) -> Seq<Fraction> {
    items.map_values(|v: ValueView| scalar_of(v).unwrap())
}

/// `out` lists, as whole numbers, the stable ascending order of the numbers
/// in `items`.
pub open spec fn is_order_of(items: Seq<ValueView>, out: Seq<ValueView>) -> bool {
    exists|perm: Seq<usize>|
        #[trigger] is_stable_order(numbers_of(items), perm) && out.len()
            == perm.len() && forall|i: int| 0 <= i < out.len() ==> is_int_view(#[trigger] out[i], perm[i] as int)
}

/// A vector answer in the `Unassigned` role.
pub open spec fn unassigned_vector(items: Seq<ValueView>) -> ValueView {
    ValueView { data: DataView::Vector(items), hint: Interpretation::Unassigned, absence: None }
}

/// The operand of a one-operand word is a vector short enough to be
/// counted in 64-bit numbers.
pub open spec fn countable_operand(s: Seq<Value>) -> bool {
    s.len() > 0 ==> (vector_items(s.last()@) matches Some(items) ==> items.len() < i64::MAX)
}

fn int_value(n: usize) -> (r: Value)
    requires
        n < i64::MAX,
    ensures
        is_int_view(r@, n as int),
{
    Value::from_int(n as i64)
}

/// The numbers of `items`, or `None` when one of them is not a number.
fn numbers_in(items: &Vec<Value>) -> (r: Option<Vec<Fraction>>)
    ensures
        match r {
            Some(k) => all_numbers(values_view(items@)) && k@ == numbers_of(values_view(items@)),
            None => !all_numbers(values_view(items@)),
        },
{
    let ghost iv = values_view(items@);
    proof {
        lemma_values_view(items@);
    }
    let mut keys: Vec<Fraction> = Vec::new();
    let mut i: usize = 0;
    while i < items.len()
        invariant
            0 <= i <= items@.len(),
            iv == values_view(items@),
            iv.len() == items@.len(),
            forall|m: int| 0 <= m < items@.len() ==> #[trigger] iv[m] == items@[m]@,
            keys@.len() == i,
            forall|m: int| 0 <= m < i ==> scalar_of(iv[m]) == Some(#[trigger] keys@[m]),
        decreases items.len() - i,
    {
        match items[i].as_scalar() {
            Some(f) => keys.push(f),
            None => {
                proof {
                    assert(scalar_of(iv[i as int]) is None);
                }
                return None;
            },
        }
        i = i + 1;
    }
    proof {
        assert(keys@ =~= numbers_of(iv));
        assert forall|m: int| 0 <= m < iv.len() implies (#[trigger] scalar_of(iv[m])) is Some by {
            assert(scalar_of(iv[m]) == Some(keys@[m]));
        }
    }
    Some(keys)
}

/// `ORDER ( [ vec ] -> [ permutation ] )`: the positions of the numbers of
/// `vec` in the order that sorts them ascending, equal numbers in their
/// original order. NIL passes through.
pub fn op_order(interp: &mut Interpreter) -> (r: Result<(), AjisaiError>)
    requires
        countable_operand(old(interp).stack@),
    ensures
        same_except_stack(final(interp), old(interp)),
        old(interp).stack@.len() == 0 ==> (r matches Err(AjisaiError::StackUnderflow)),
        r is Err ==> final(interp).stack@ == old(interp).stack@,
        old(interp).stack@.len() > 0 ==> {
            let top = old(interp).stack@.last()@;
            if top.data is Nil {
                r is Ok && pushed_one(final(interp).stack@, base_after(old(interp), 1), top)
            } else {
                match vector_items(top) {
                    None => r matches Err(AjisaiError::StructureError { expected: e, got: g }) && e
                        == "vector" && g == "non-vector value",
                    Some(items) => if all_numbers(items) {
                        r is Ok && final(interp).stack@.len() == base_after(old(interp), 1).len()
                            + 1 && final(interp).stack@.drop_last() == base_after(old(interp), 1)
                            && (final(interp).stack@.last()@.data matches DataView::Vector(out)
                            && is_order_of(items, out)) && final(interp).stack@.last()@.hint
                            == Interpretation::Unassigned
                    } else {
                        r matches Err(AjisaiError::TypeError { expected: e, got: g }) && e
                            == "a vector of numbers" && g == "a non-numeric element"
                    },
                }
            }
        },
{
    let value = take_operand(interp)?;
    proof {
        if !keeping(old(interp)) {
            assert(old(interp).stack@ =~= old(interp).stack@.drop_last().push(old(interp).stack@.last()));
        }
        assert(interp.stack@ =~= base_after(old(interp), 1));
    }
    if value.is_nil() {
        interp.stack.push(value);
        proof {
            assert(interp.stack@.drop_last() =~= base_after(old(interp), 1));
        }
        return Ok(());
    }
    let items = match elements_of(&value, "vector") {
        Ok(items) => items,
        Err(e) => {
            restore_operand(interp, value);
            return Err(e);
        },
    };
    let ghost iv = values_view(items@);
    proof {
        lemma_values_view(items@);
    }
    let keys = match numbers_in(&items) {
        Some(k) => k,
        None => {
            restore_operand(interp, value);
            return Err(
                AjisaiError::TypeError { expected: "a vector of numbers", got: "a non-numeric element" },
            );
        },
    };
    let perm = stable_order(&keys);
    let mut out: Vec<Value> = Vec::new();
    let mut j: usize = 0;
    while j < perm.len()
        invariant
            0 <= j <= perm@.len(),
            perm@.len() == keys@.len(),
            keys@.len() == iv.len(),
            iv.len() < i64::MAX,
            forall|a: int| 0 <= a < perm@.len() ==> #[trigger] perm@[a] < keys@.len(),
            out@.len() == j,
            forall|m: int| 0 <= m < j ==> is_int_view((#[trigger] out@[m])@, perm@[m] as int),
        decreases perm@.len() - j,
    {
        assert(perm@[j as int] < keys@.len());
        out.push(int_value(perm[j]));
        j = j + 1;
    }
    proof {
        lemma_values_view(out@);
        let ov = values_view(out@);
        assert forall|m: int| 0 <= m < ov.len() implies is_int_view(#[trigger] ov[m], perm@[m] as int) by {
            assert(ov[m] == out@[m]@);
        }
        assert(is_stable_order(numbers_of(iv), perm@));
    }
    interp.stack.push(Value::from_vector(out).with_role(Interpretation::Unassigned));
    Ok(())
}

/// The first-occurrence scan of `items`: the distinct values and how many
/// elements each stands for.
pub fn distinct_with_counts(items: &Vec<Value>) -> (r: (Vec<Value>, Vec<usize>))
    ensures
        values_view(r.0@) == scan_distinct(values_view(items@)).0,
        r.1@.len() == scan_distinct(values_view(items@)).1.len(),
        forall|j: int| 0 <= j < r.1@.len() ==> #[trigger] r.1@[j] as int == scan_distinct(values_view(items@)).1[j],
{
    let ghost iv = values_view(items@);
    proof {
        lemma_values_view(items@);
        assert(iv.take(0) =~= Seq::<ValueView>::empty());
    }
    let mut kept: Vec<Value> = Vec::new();
    let mut counts: Vec<usize> = Vec::new();
    let mut i: usize = 0;
    while i < items.len()
        invariant
            0 <= i <= items@.len(),
            iv == values_view(items@),
            iv.len() == items@.len(),
            forall|m: int| 0 <= m < items@.len() ==> #[trigger] iv[m] == items@[m]@,
            values_view(kept@) == scan_distinct(iv.take(i as int)).0,
            counts@.len() == scan_distinct(iv.take(i as int)).1.len(),
            forall|j: int| 0 <= j < counts@.len() ==> #[trigger] counts@[j] as int == scan_distinct(iv.take(i as int)).1[j],
        decreases items.len() - i,
    {
        let ghost prev = iv.take(i as int);
        let ghost next = iv.take(i + 1);
        proof {
            assert(next.drop_last() =~= prev);
            assert(next.last() == items@[i as int]@);
            lemma_scan_distinct_shape(prev);
            lemma_values_view(kept@);
            lemma_key_index(values_view(kept@), items@[i as int]@);
        }
        match find_key(&kept, &items[i]) {
            Some(p) => {
                proof {
                    assert(key_index(values_view(kept@), items@[i as int]@) == p);
                    assert(counts@[p as int] as int == scan_distinct(prev).1[p as int]);
                }
                let c = counts[p];
                counts.set(p, c + 1);
            },
            None => {
                let ghost kv = values_view(kept@);
                kept.push(items[i].duplicate());
                counts.push(1);
                proof {
                    crate::records::lemma_values_view_is(kept@, kv.push(items@[i as int]@));
                }
            },
        }
        i = i + 1;
    }
    proof {
        assert(iv.take(i as int) =~= iv);
    }
    (kept, counts)
}

/// `UNIQUE ( [ vec ] -> [ distinct ] )`: the distinct elements in
/// first-occurrence order. NIL passes through.
pub fn op_unique(interp: &mut Interpreter) -> (r: Result<(), AjisaiError>)
    ensures
        same_except_stack(final(interp), old(interp)),
        old(interp).stack@.len() == 0 ==> (r matches Err(AjisaiError::StackUnderflow)),
        r is Err ==> final(interp).stack@ == old(interp).stack@,
        old(interp).stack@.len() > 0 ==> {
            let top = old(interp).stack@.last()@;
            if top.data is Nil {
                r is Ok && pushed_one(final(interp).stack@, base_after(old(interp), 1), top)
            } else {
                match vector_items(top) {
                    None => r matches Err(AjisaiError::StructureError { expected: e, got: g }) && e
                        == "vector" && g == "non-vector value",
                    Some(items) => r is Ok && pushed_one(
                        final(interp).stack@,
                        base_after(old(interp), 1),
                        unassigned_vector(scan_distinct(items).0),
                    ),
                }
            }
        },
{
    let value = take_operand(interp)?;
    proof {
        if !keeping(old(interp)) {
            assert(old(interp).stack@ =~= old(interp).stack@.drop_last().push(old(interp).stack@.last()));
        }
        assert(interp.stack@ =~= base_after(old(interp), 1));
    }
    if value.is_nil() {
        interp.stack.push(value);
        proof {
            assert(interp.stack@.drop_last() =~= base_after(old(interp), 1));
        }
        return Ok(());
    }
    let items = match elements_of(&value, "vector") {
        Ok(items) => items,
        Err(e) => {
            restore_operand(interp, value);
            return Err(e);
        },
    };
    let (kept, _counts) = distinct_with_counts(&items);
    interp.stack.push(Value::from_vector(kept).with_role(Interpretation::Unassigned));
    proof {
        assert(interp.stack@.drop_last() =~= base_after(old(interp), 1));
    }
    Ok(())
}

/// `TALLY ( [ vec ] -> [ counts ] )`: how many times each distinct element
/// occurs, in the order `UNIQUE` reports them. NIL passes through.
pub fn op_tally(interp: &mut Interpreter) -> (r: Result<(), AjisaiError>)
    requires
        countable_operand(old(interp).stack@),
    ensures
        same_except_stack(final(interp), old(interp)),
        old(interp).stack@.len() == 0 ==> (r matches Err(AjisaiError::StackUnderflow)),
        r is Err ==> final(interp).stack@ == old(interp).stack@,
        old(interp).stack@.len() > 0 ==> {
            let top = old(interp).stack@.last()@;
            if top.data is Nil {
                r is Ok && pushed_one(final(interp).stack@, base_after(old(interp), 1), top)
            } else {
                match vector_items(top) {
                    None => r matches Err(AjisaiError::StructureError { expected: e, got: g }) && e
                        == "vector" && g == "non-vector value",
                    Some(items) => r is Ok && final(interp).stack@.len() == base_after(
                        old(interp),
                        1,
                    ).len() + 1 && final(interp).stack@.drop_last() == base_after(old(interp), 1)
                        && final(interp).stack@.last()@.hint == Interpretation::Unassigned && (
                    final(interp).stack@.last()@.data matches DataView::Vector(out) && out.len()
                        == scan_distinct(items).1.len() && forall|j: int|
                        0 <= j < out.len() ==> is_int_view(#[trigger] out[j], scan_distinct(items).1[j])),
                }
            }
        },
{
    let value = take_operand(interp)?;
    proof {
        if !keeping(old(interp)) {
            assert(old(interp).stack@ =~= old(interp).stack@.drop_last().push(old(interp).stack@.last()));
        }
        assert(interp.stack@ =~= base_after(old(interp), 1));
    }
    if value.is_nil() {
        interp.stack.push(value);
        proof {
            assert(interp.stack@.drop_last() =~= base_after(old(interp), 1));
        }
        return Ok(());
    }
    let items = match elements_of(&value, "vector") {
        Ok(items) => items,
        Err(e) => {
            restore_operand(interp, value);
            return Err(e);
        },
    };
    let (_kept, counts) = distinct_with_counts(&items);
    let ghost sc = scan_distinct(values_view(items@));
    proof {
        lemma_values_view(items@);
        lemma_scan_distinct_shape(values_view(items@));
    }
    let mut out: Vec<Value> = Vec::new();
    let mut j: usize = 0;
    while j < counts.len()
        invariant
            0 <= j <= counts@.len(),
            counts@.len() == sc.1.len(),
            forall|m: int| 0 <= m < counts@.len() ==> #[trigger] counts@[m] as int == sc.1[m],
            forall|m: int| 0 <= m < sc.1.len() ==> 1 <= #[trigger] sc.1[m] < i64::MAX,
            out@.len() == j,
            forall|m: int| 0 <= m < j ==> is_int_view((#[trigger] out@[m])@, sc.1[m]),
        decreases counts@.len() - j,
    {
        assert(counts@[j as int] as int == sc.1[j as int]);
        out.push(int_value(counts[j]));
        j = j + 1;
    }
    proof {
        lemma_values_view(out@);
        let ov = values_view(out@);
        assert forall|m: int| 0 <= m < ov.len() implies is_int_view(#[trigger] ov[m], sc.1[m]) by {
            assert(ov[m] == out@[m]@);
        }
    }
    interp.stack.push(Value::from_vector(out).with_role(Interpretation::Unassigned));
    proof {
        assert(interp.stack@.drop_last() =~= base_after(old(interp), 1));
    }
    Ok(())
}

/// The groups of `values` by the key at the same position of `keys`.
pub fn group_scan(keys: &Vec<Value>, values: &Vec<Value>) -> (r: (Vec<Value>, Vec<Vec<Value>>))
    requires
        keys@.len() == values@.len(),
    ensures
        values_view(r.0@) == scan_groups(values_view(keys@), values_view(values@)).0,
        r.1@.len() == scan_groups(values_view(keys@), values_view(values@)).1.len(),
        forall|j: int|
            0 <= j < r.1@.len() ==> values_view((#[trigger] r.1@[j])@) == scan_groups(
                values_view(keys@),
                values_view(values@),
            ).1[j],
{
    let ghost kv = values_view(keys@);
    let ghost vv = values_view(values@);
    proof {
        lemma_values_view(keys@);
        lemma_values_view(values@);
        assert(kv.take(0) =~= Seq::<ValueView>::empty());
    }
    let mut kept: Vec<Value> = Vec::new();
    let mut buckets: Vec<Vec<Value>> = Vec::new();
    let mut i: usize = 0;
    while i < keys.len()
        invariant
            0 <= i <= keys@.len(),
            keys@.len() == values@.len(),
            kv == values_view(keys@),
            vv == values_view(values@),
            kv.len() == keys@.len(),
            vv.len() == values@.len(),
            forall|m: int| 0 <= m < keys@.len() ==> #[trigger] kv[m] == keys@[m]@,
            forall|m: int| 0 <= m < values@.len() ==> #[trigger] vv[m] == values@[m]@,
            values_view(kept@) == scan_groups(kv.take(i as int), vv.take(i as int)).0,
            buckets@.len() == scan_groups(kv.take(i as int), vv.take(i as int)).1.len(),
            forall|j: int|
                0 <= j < buckets@.len() ==> values_view((#[trigger] buckets@[j])@) == scan_groups(
                    kv.take(i as int),
                    vv.take(i as int),
                ).1[j],
        decreases keys.len() - i,
    {
        let ghost pk = kv.take(i as int);
        let ghost pv = vv.take(i as int);
        let ghost sg = scan_groups(pk, pv);
        proof {
            assert(kv.take(i + 1).drop_last() =~= pk);
            assert(vv.take(i + 1).drop_last() =~= pv);
            assert(kv.take(i + 1).last() == keys@[i as int]@);
            assert(vv.take(i + 1).last() == values@[i as int]@);
            lemma_values_view(kept@);
            lemma_key_index(values_view(kept@), keys@[i as int]@);
            crate::ordering::lemma_scan_groups_shape(pk, pv);
        }
        match find_key(&kept, &keys[i]) {
            Some(p) => {
                proof {
                    assert(key_index(values_view(kept@), keys@[i as int]@) == p);
                }
                let mut b = copy_values(&buckets[p]);
                let ghost bv = values_view(b@);
                proof {
                    lemma_values_view(b@);
                }
                b.push(values[i].duplicate());
                proof {
                    crate::records::lemma_values_view_is(b@, bv.push(values@[i as int]@));
                    assert(bv == sg.1[p as int]);
                }
                let ghost old_buckets = buckets@;
                buckets.set(p, b);
                proof {
                    let nsg = scan_groups(kv.take(i + 1), vv.take(i + 1));
                    assert forall|j: int| 0 <= j < buckets@.len() implies values_view(
                        (#[trigger] buckets@[j])@,
                    ) == nsg.1[j] by {
                        if j != p {
                            assert(buckets@[j] == old_buckets[j]);
                        }
                    }
                }
            },
            None => {
                let ghost kpv = values_view(kept@);
                kept.push(keys[i].duplicate());
                let mut b: Vec<Value> = Vec::new();
                b.push(values[i].duplicate());
                proof {
                    crate::records::lemma_values_view_is(kept@, kpv.push(keys@[i as int]@));
                    crate::records::lemma_values_view_is(b@, seq![values@[i as int]@]);
                }
                let ghost old_buckets = buckets@;
                buckets.push(b);
                proof {
                    let nsg = scan_groups(kv.take(i + 1), vv.take(i + 1));
                    assert forall|j: int| 0 <= j < buckets@.len() implies values_view(
                        (#[trigger] buckets@[j])@,
                    ) == nsg.1[j] by {
                        if j < old_buckets.len() {
                            assert(buckets@[j] == old_buckets[j]);
                        }
                    }
                }
            },
        }
        i = i + 1;
    }
    proof {
        assert(kv.take(i as int) =~= kv);
        assert(vv.take(i as int) =~= vv);
    }
    (kept, buckets)
}

/// The record `GROUP` answers: each distinct key, in first-occurrence
/// order, with the vector of the values at its positions.
pub open spec fn group_answer(ks: Seq<ValueView>, vs: Seq<ValueView>) -> ValueView {
    crate::record_ops::plain(
        DataView::Record(
            scan_groups(ks, vs).0,
            scan_groups(ks, vs).1.map_values(|b: Seq<ValueView>| crate::record_ops::plain(DataView::Vector(b))),
        ),
    )
}

/// `GROUP ( [ keys ] [ values ] -> { key [ values... ] ... } )`: the values
/// bundled by the key at the same position, keys in the order `UNIQUE keys`
/// reports them.
pub fn op_group(interp: &mut Interpreter) -> (r: Result<(), AjisaiError>)
    ensures
        same_except_stack(final(interp), old(interp)),
        old(interp).stack@.len() < 2 ==> (r matches Err(AjisaiError::StackUnderflow)),
        r is Err ==> final(interp).stack@ == old(interp).stack@,
        old(interp).stack@.len() >= 2 ==> {
            let ops = crate::interpreter::top_views(old(interp).stack@, 2);
            match (vector_items(ops[0]), vector_items(ops[1])) {
                (None, _) => r matches Err(AjisaiError::StructureError { expected: e, got: g }) && e
                    == "vector as first operand" && g == "non-vector value",
                (Some(_), None) => r matches Err(AjisaiError::StructureError { expected: e, got: g })
                    && e == "vector as second operand" && g == "non-vector value",
                (Some(ks), Some(vs)) => if ks.len() != vs.len() {
                    r matches Err(AjisaiError::VectorLengthMismatch { len1, len2 }) && len1
                        == ks.len() && len2 == vs.len()
                } else {
                    r is Ok && pushed_one(
                        final(interp).stack@,
                        base_after(old(interp), 2),
                        group_answer(ks, vs),
                    )
                },
            }
        },
{
    let operands = crate::interpreter::extract_operands(interp, 2)?;
    let ghost ops = crate::interpreter::top_views(old(interp).stack@, 2);
    proof {
        assert(ops[0] == operands@[0]@);
        assert(ops[1] == operands@[1]@);
        if !keeping(old(interp)) {
            assert(old(interp).stack@.subrange(0, old(interp).stack@.len() - 2) + operands@
                =~= old(interp).stack@);
        }
    }
    let keys = match elements_of(&operands[0], "vector as first operand") {
        Ok(k) => k,
        Err(e) => {
            crate::interpreter::restore_operands(interp, operands);
            return Err(e);
        },
    };
    let values = match elements_of(&operands[1], "vector as second operand") {
        Ok(v) => v,
        Err(e) => {
            crate::interpreter::restore_operands(interp, operands);
            return Err(e);
        },
    };
    proof {
        lemma_values_view(keys@);
        lemma_values_view(values@);
    }
    if values.len() != keys.len() {
        let (len1, len2) = (keys.len(), values.len());
        crate::interpreter::restore_operands(interp, operands);
        return Err(AjisaiError::VectorLengthMismatch { len1, len2 });
    }
    let (kept, buckets) = group_scan(&keys, &values);
    let ghost sg = scan_groups(values_view(keys@), values_view(values@));
    let mut out: Vec<Value> = Vec::new();
    let mut j: usize = 0;
    while j < buckets.len()
        invariant
            0 <= j <= buckets@.len(),
            buckets@.len() == sg.1.len(),
            forall|m: int| 0 <= m < buckets@.len() ==> values_view((#[trigger] buckets@[m])@) == sg.1[m],
            out@.len() == j,
            forall|m: int|
                0 <= m < j ==> (#[trigger] out@[m])@ == crate::record_ops::plain(DataView::Vector(sg.1[m])),
        decreases buckets@.len() - j,
    {
        let b = copy_values(&buckets[j]);
        out.push(Value::from_vector(b));
        j = j + 1;
    }
    proof {
        crate::records::lemma_values_view_is(
            out@,
            sg.1.map_values(|b: Seq<ValueView>| crate::record_ops::plain(DataView::Vector(b))),
        );
    }
    interp.stack.push(Value::from_record(RecordData { keys: kept, values: out }));
    proof {
        assert(interp.stack@.drop_last() =~= base_after(old(interp), 2));
    }
    Ok(())
}

} // verus!
