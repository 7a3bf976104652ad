//! `GCD` and `RATIO`: the reduction every rational already undergoes, and
//! a rational's two parts read back as a vector. Both lift element-wise
//! over vectors and value-wise over records; a non-integer `GCD` operand
//! projects a domain-miss NIL, and what is not a number is refused.
use crate::error::AjisaiError;
use crate::interpreter::{base_after, extract_operands, keeping, restore_operands, same_except_stack, top_views, Interpreter};
use crate::math_ops::{lift_binary_numeric, lift_select, lift_unary, lift_unary_numeric, raises, value_matches, lanes_match, BinaryNumeric, LiftFailure, UnaryNumeric};
use crate::quantize::shorter;
use crate::rational::{abs_int, spec_gcd, Fraction};
use crate::record_ops::plain;
use crate::value::{copy_values, lemma_values_view, values_view, views_eq, DataView, Interpretation, RecordData, Value, ValueData, ValueView};
use vstd::prelude::*;

verus! {

/// A word's answer takes the `Nil` role when it is a NIL, `role` otherwise.
pub open spec fn with_answer_role(v: ValueView, role: Interpretation) -> ValueView {
    ValueView {
        hint: if v.data is Nil {
            Interpretation::Nil
        } else {
            role
        },
        ..v
    }
}

pub open spec fn as_record(keys: Seq<ValueView>, r: Result<Seq<ValueView>, LiftFailure>) -> Result<ValueView, LiftFailure> {
    match r {
        Ok(values) => Ok(plain(DataView::Record(keys, values))),
        Err(e) => Err(e),
    }
}

// ── GCD ──────────────────────────────────────────────────────────────────────
/// `GCD` on two operands: records lift value by value (two records need the
/// same keys); anything else lifts over vectors, and the answer takes the
/// `RawNumber` role (a NIL the `Nil` role).
pub open spec fn gcd_word(x: ValueView, y: ValueView) -> Result<ValueView, LiftFailure>
    decreases x, y, 0nat,
{
    match (x.data, y.data) {
        (DataView::Record(kx, vx), DataView::Record(ky, vy)) => if views_eq(kx, ky) {
            as_record(kx, gcd_pairs(vx, vy, shorter(vx, vy)))
        } else {
            Err(LiftFailure::ShapeMismatch)
        },
        (DataView::Record(kx, vx), _) => as_record(kx, gcd_left(vx, y, vx.len())),
        (_, DataView::Record(ky, vy)) => as_record(ky, gcd_right(x, vy, vy.len())),
        _ => match lift_select(BinaryNumeric::Gcd, x, y) {
            Ok(v) => Ok(with_answer_role(v, Interpretation::RawNumber)),
            Err(e) => Err(e),
        },
    }
}

pub open spec fn gcd_left(items: Seq<ValueView>, y: ValueView, n: nat) -> Result<Seq<ValueView>, LiftFailure>
    decreases items, y, n,
{
    if n == 0 || n > items.len() {
        Ok(Seq::empty())
    } else {
        match gcd_left(items, y, (n - 1) as nat) {
            Err(e) => Err(e),
            Ok(rest) => match gcd_word(items[n - 1], y) {
                Err(e) => Err(e),
                Ok(v) => Ok(rest.push(v)),
            },
        }
    }
}

pub open spec fn gcd_right(x: ValueView, items: Seq<ValueView>, n: nat) -> Result<Seq<ValueView>, LiftFailure>
    decreases x, items, n,
{
    if n == 0 || n > items.len() {
        Ok(Seq::empty())
    } else {
        match gcd_right(x, items, (n - 1) as nat) {
            Err(e) => Err(e),
            Ok(rest) => match gcd_word(x, items[n - 1]) {
                Err(e) => Err(e),
                Ok(v) => Ok(rest.push(v)),
            },
        }
    }
}

pub open spec fn gcd_pairs(l: Seq<ValueView>, r: Seq<ValueView>, n: nat) -> Result<Seq<ValueView>, LiftFailure>
    decreases l, r, n,
{
    if n == 0 || n > l.len() || n > r.len() {
        Ok(Seq::empty())
    } else {
        match gcd_pairs(l, r, (n - 1) as nat) {
            Err(e) => Err(e),
            Ok(rest) => match gcd_word(l[n - 1], r[n - 1]) {
                Err(e) => Err(e),
                Ok(v) => Ok(rest.push(v)),
            },
        }
    }
}

proof fn lemma_gcd_left_err(items: Seq<ValueView>, y: ValueView, k: nat, n: nat)
    requires
        k <= n <= items.len(),
        gcd_left(items, y, k) is Err,
    ensures
        gcd_left(items, y, n) == gcd_left(items, y, k),
    decreases n,
{
    if n > k {
        lemma_gcd_left_err(items, y, k, (n - 1) as nat);
    }
}

proof fn lemma_gcd_right_err(x: ValueView, items: Seq<ValueView>, k: nat, n: nat)
    requires
        k <= n <= items.len(),
        gcd_right(x, items, k) is Err,
    ensures
        gcd_right(x, items, n) == gcd_right(x, items, k),
    decreases n,
{
    if n > k {
        lemma_gcd_right_err(x, items, k, (n - 1) as nat);
    }
}

proof fn lemma_gcd_pairs_err(l: Seq<ValueView>, r: Seq<ValueView>, k: nat, n: nat)
    requires
        k <= n,
        n <= l.len(),
        n <= r.len(),
        gcd_pairs(l, r, k) is Err,
    ensures
        gcd_pairs(l, r, n) == gcd_pairs(l, r, k),
    decreases n,
{
    if n > k {
        lemma_gcd_pairs_err(l, r, k, (n - 1) as nat);
    }
}

/// The value is a number with denominator one.
pub open spec fn integer_scalar(v: ValueView) -> bool {
    v.data matches DataView::Scalar(f) && f.den() == 1
}

/// The number a scalar value holds.
pub open spec fn scalar_of(v: ValueView) -> Fraction {
    match v.data {
        DataView::Scalar(f) => f,
        _ => Fraction::from_parts((0, 1)),
    }
}

/// The non-negative greatest common divisor of two integers, as a fraction.
pub open spec fn integer_gcd(a: Fraction, b: Fraction) -> Fraction {
    Fraction::from_parts((spec_gcd(abs_int(a.num()) as nat, abs_int(b.num()) as nat) as int, 1))
}

proof fn lemma_gcd_of_integers(a: ValueView, b: ValueView)
    requires
        integer_scalar(a),
        integer_scalar(b),
    ensures
        gcd_word(a, b) is Ok,
        gcd_word(a, b)->Ok_0.data == DataView::Scalar(integer_gcd(scalar_of(a), scalar_of(b))),
{
}

proof fn lemma_gcd_pairs_of_integers(l: Seq<ValueView>, r: Seq<ValueView>, n: nat)
    requires
        n <= l.len(),
        n <= r.len(),
        forall|i: int| 0 <= i < n ==> #[trigger] integer_scalar(l[i]),
        forall|i: int| 0 <= i < n ==> #[trigger] integer_scalar(r[i]),
    ensures
        gcd_pairs(l, r, n) is Ok,
        gcd_pairs(l, r, n)->Ok_0.len() == n,
        forall|i: int|
            0 <= i < n ==> (#[trigger] gcd_pairs(l, r, n)->Ok_0[i]).data == DataView::Scalar(
                integer_gcd(scalar_of(l[i]), scalar_of(r[i])),
            ),
    decreases n,
{
    if n > 0 {
        lemma_gcd_pairs_of_integers(l, r, (n - 1) as nat);
        assert(integer_scalar(l[n - 1]));
        assert(integer_scalar(r[n - 1]));
        lemma_gcd_of_integers(l[n - 1], r[n - 1]);
    }
}

proof fn lemma_gcd_left_of_integers(items: Seq<ValueView>, y: ValueView, n: nat)
    requires
        n <= items.len(),
        integer_scalar(y),
        forall|i: int| 0 <= i < n ==> #[trigger] integer_scalar(items[i]),
    ensures
        gcd_left(items, y, n) is Ok,
        gcd_left(items, y, n)->Ok_0.len() == n,
        forall|i: int|
            0 <= i < n ==> (#[trigger] gcd_left(items, y, n)->Ok_0[i]).data == DataView::Scalar(
                integer_gcd(scalar_of(items[i]), scalar_of(y)),
            ),
    decreases n,
{
    if n > 0 {
        lemma_gcd_left_of_integers(items, y, (n - 1) as nat);
        assert(integer_scalar(items[n - 1]));
        lemma_gcd_of_integers(items[n - 1], y);
    }
}

proof fn lemma_gcd_right_of_integers(x: ValueView, items: Seq<ValueView>, n: nat)
    requires
        n <= items.len(),
        integer_scalar(x),
        forall|i: int| 0 <= i < n ==> #[trigger] integer_scalar(items[i]),
    ensures
        gcd_right(x, items, n) is Ok,
        gcd_right(x, items, n)->Ok_0.len() == n,
        forall|i: int|
            0 <= i < n ==> (#[trigger] gcd_right(x, items, n)->Ok_0[i]).data == DataView::Scalar(
                integer_gcd(scalar_of(x), scalar_of(items[i])),
            ),
    decreases n,
{
    if n > 0 {
        lemma_gcd_right_of_integers(x, items, (n - 1) as nat);
        assert(integer_scalar(items[n - 1]));
        lemma_gcd_of_integers(x, items[n - 1]);
    }
}

proof fn lemma_gcd_symmetric(a: nat, b: nat)
    ensures
        spec_gcd(a, b) == spec_gcd(b, a),
{
    if a < b {
        vstd::arithmetic::div_mod::lemma_small_mod(a, b);
        assert(spec_gcd(a, b) == spec_gcd(b, a % b));
    } else if b < a {
        vstd::arithmetic::div_mod::lemma_small_mod(b, a);
        assert(spec_gcd(b, a) == spec_gcd(a, b % a));
    }
}

/// `GCD` of two integers is the greatest common divisor of their absolute
/// values, whatever their order.
pub proof fn law_gcd_of_integers(a: ValueView, b: ValueView)
    requires
        integer_scalar(a),
        integer_scalar(b),
    ensures
        gcd_word(a, b) is Ok,
        gcd_word(a, b)->Ok_0.data == DataView::Scalar(integer_gcd(scalar_of(a), scalar_of(b))),
        gcd_word(a, b) == gcd_word(b, a),
{
    lemma_gcd_of_integers(a, b);
    lemma_gcd_of_integers(b, a);
    lemma_gcd_symmetric(abs_int(scalar_of(a).num()) as nat, abs_int(scalar_of(b).num()) as nat);
}

/// `GCD` of a record and an integer (on either side) takes each value of
/// the record with that integer: the answer keeps the record's keys, and
/// its `i`-th value is the greatest common divisor of the record's `i`-th
/// value and the integer.
pub proof fn law_gcd_record_with_integer(r: ValueView, n: ValueView)
    requires
        r.data is Record,
        integer_scalar(n),
        forall|i: int| 0 <= i < r.data->Record_1.len() ==> #[trigger] integer_scalar(r.data->Record_1[i]),
    ensures
        gcd_word(r, n) is Ok,
        gcd_word(r, n)->Ok_0.data matches DataView::Record(keys, values) && keys == r.data->Record_0
            && values.len() == r.data->Record_1.len() && forall|i: int|
            0 <= i < values.len() ==> (#[trigger] values[i]).data == DataView::Scalar(
                integer_gcd(scalar_of(r.data->Record_1[i]), scalar_of(n)),
            ),
        gcd_word(n, r) is Ok,
        gcd_word(n, r)->Ok_0.data matches DataView::Record(keys, values) && keys == r.data->Record_0
            && values.len() == r.data->Record_1.len() && forall|i: int|
            0 <= i < values.len() ==> (#[trigger] values[i]).data == DataView::Scalar(
                integer_gcd(scalar_of(n), scalar_of(r.data->Record_1[i])),
            ),
{
    let vr = r.data->Record_1;
    lemma_gcd_left_of_integers(vr, n, vr.len());
    lemma_gcd_right_of_integers(n, vr, vr.len());
}

/// `GCD` of two records with the same keys pairs their values position by
/// position: where every value is an integer, the answer is a record with
/// the same keys whose `i`-th value is the greatest common divisor of the
/// `i`-th values of the two operands, taken without sign.
pub proof fn law_gcd_records_pair_values(x: ValueView, y: ValueView)
    requires
        x.data is Record,
        y.data is Record,
        views_eq(x.data->Record_0, y.data->Record_0),
        x.data->Record_1.len() == y.data->Record_1.len(),
        forall|i: int| 0 <= i < x.data->Record_1.len() ==> #[trigger] integer_scalar(x.data->Record_1[i]),
        forall|i: int| 0 <= i < y.data->Record_1.len() ==> #[trigger] integer_scalar(y.data->Record_1[i]),
    ensures
        gcd_word(x, y) is Ok,
        gcd_word(x, y)->Ok_0.data matches DataView::Record(keys, values) && keys == x.data->Record_0
            && values.len() == x.data->Record_1.len() && forall|i: int|
            0 <= i < values.len() ==> (#[trigger] values[i]).data == DataView::Scalar(
                integer_gcd(scalar_of(x.data->Record_1[i]), scalar_of(y.data->Record_1[i])),
            ),
{
    let vx = x.data->Record_1;
    let vy = y.data->Record_1;
    lemma_gcd_pairs_of_integers(vx, vy, vx.len());
    assert(shorter(vx, vy) == vx.len());
}

fn record_value(keys: &Vec<Value>, values: Vec<Value>) -> (r: Value)
    ensures
        r@ == plain(DataView::Record(values_view(keys@), values_view(values@))),
{
    let k = copy_values(keys);
    Value::from_record(RecordData { keys: k, values })
}

fn shape_mismatch() -> (e: AjisaiError)
    ensures
        raises(e, LiftFailure::ShapeMismatch),
{
    AjisaiError::declared("shapeMismatch", "two Records combine only when their key sequences are equal")
}

/// `GCD` on two operands (see [`gcd_word`]).
pub fn gcd_pair(x: &Value, y: &Value) -> (r: Result<Value, AjisaiError>)
    ensures
        value_matches(r, gcd_word(x@, y@)),
    decreases *x, *y, 0nat,
{
    match (&x.data, &y.data) {
        (ValueData::Record(rx), ValueData::Record(ry)) => {
            proof {
                assert(decreases_to!(*x => rx.values@));
                assert(decreases_to!(*y => ry.values@));
                lemma_values_view(rx.values@);
                lemma_values_view(ry.values@);
            }
            if !crate::value::seq_values_equal(&rx.keys, &ry.keys) {
                return Err(shape_mismatch());
            }
            match gcd_pair_values(&rx.values, &ry.values) {
                Ok(values) => Ok(record_value(&rx.keys, values)),
                Err(e) => Err(e),
            }
        },
        (ValueData::Record(rx), _) => {
            proof {
                assert(decreases_to!(*x => rx.values@));
                lemma_values_view(rx.values@);
            }
            match gcd_left_values(&rx.values, y) {
                Ok(values) => Ok(record_value(&rx.keys, values)),
                Err(e) => Err(e),
            }
        },
        (_, ValueData::Record(ry)) => {
            proof {
                assert(decreases_to!(*y => ry.values@));
                lemma_values_view(ry.values@);
            }
            match gcd_right_values(x, &ry.values) {
                Ok(values) => Ok(record_value(&ry.keys, values)),
                Err(e) => Err(e),
            }
        },
        _ => match lift_binary_numeric(BinaryNumeric::Gcd, x, y) {
            Ok(v) => {
                let role = if v.is_nil() {
                    Interpretation::Nil
                } else {
                    Interpretation::RawNumber
                };
                Ok(v.with_role(role))
            },
            Err(e) => Err(e),
        },
    }
}

fn gcd_left_values(items: &Vec<Value>, y: &Value) -> (r: Result<Vec<Value>, AjisaiError>)
    ensures
        lanes_match(r, gcd_left(values_view(items@), y@, items@.len())),
    decreases items@, *y, items@.len(),
{
    let ghost iv = values_view(items@);
    proof {
        lemma_values_view(items@);
    }
    let mut out: Vec<Value> = Vec::new();
    let mut i: usize = 0;
    while i < items.len()
        invariant
            0 <= i <= items@.len(),
            iv == values_view(items@),
            iv.len() == items@.len(),
            forall|m: int| 0 <= m < items@.len() ==> #[trigger] iv[m] == items@[m]@,
            out@.len() == i,
            gcd_left(iv, y@, i as nat) == Ok::<Seq<ValueView>, LiftFailure>(values_view(out@)),
        decreases items@.len() - i,
    {
        proof {
            assert(decreases_to!(items@ => items@[i as int]));
        }
        match gcd_pair(&items[i], y) {
            Ok(v) => {
                let ghost before = out@;
                proof {
                    lemma_values_view(before);
                }
                out.push(v);
                proof {
                    lemma_values_view(out@);
                    assert(values_view(out@) =~= values_view(before).push(out@[i as int]@));
                }
            },
            Err(e) => {
                proof {
                    lemma_gcd_left_err(iv, y@, (i + 1) as nat, items@.len());
                }
                return Err(e);
            },
        }
        i = i + 1;
    }
    Ok(out)
}

fn gcd_right_values(x: &Value, items: &Vec<Value>) -> (r: Result<Vec<Value>, AjisaiError>)
    ensures
        lanes_match(r, gcd_right(x@, values_view(items@), items@.len())),
    decreases *x, items@, items@.len(),
{
    let ghost iv = values_view(items@);
    proof {
        lemma_values_view(items@);
    }
    let mut out: Vec<Value> = Vec::new();
    let mut i: usize = 0;
    while i < items.len()
        invariant
            0 <= i <= items@.len(),
            iv == values_view(items@),
            iv.len() == items@.len(),
            forall|m: int| 0 <= m < items@.len() ==> #[trigger] iv[m] == items@[m]@,
            out@.len() == i,
            gcd_right(x@, iv, i as nat) == Ok::<Seq<ValueView>, LiftFailure>(values_view(out@)),
        decreases items@.len() - i,
    {
        proof {
            assert(decreases_to!(items@ => items@[i as int]));
        }
        match gcd_pair(x, &items[i]) {
            Ok(v) => {
                let ghost before = out@;
                proof {
                    lemma_values_view(before);
                }
                out.push(v);
                proof {
                    lemma_values_view(out@);
                    assert(values_view(out@) =~= values_view(before).push(out@[i as int]@));
                }
            },
            Err(e) => {
                proof {
                    lemma_gcd_right_err(x@, iv, (i + 1) as nat, items@.len());
                }
                return Err(e);
            },
        }
        i = i + 1;
    }
    Ok(out)
}

fn gcd_pair_values(l: &Vec<Value>, r: &Vec<Value>) -> (res: Result<Vec<Value>, AjisaiError>)
    ensures
        lanes_match(res, gcd_pairs(values_view(l@), values_view(r@), shorter(values_view(l@), values_view(r@)))),
    decreases l@, r@, l@.len(),
{
    let ghost lv = values_view(l@);
    let ghost rv = values_view(r@);
    proof {
        lemma_values_view(l@);
        lemma_values_view(r@);
    }
    let n = if l.len() < r.len() {
        l.len()
    } else {
        r.len()
    };
    let mut out: Vec<Value> = Vec::new();
    let mut i: usize = 0;
    while i < n
        invariant
            0 <= i <= n,
            n <= l@.len(),
            n <= r@.len(),
            n == shorter(lv, rv),
            lv == values_view(l@),
            rv == values_view(r@),
            lv.len() == l@.len(),
            rv.len() == r@.len(),
            forall|m: int| 0 <= m < l@.len() ==> #[trigger] lv[m] == l@[m]@,
            forall|m: int| 0 <= m < r@.len() ==> #[trigger] rv[m] == r@[m]@,
            out@.len() == i,
            gcd_pairs(lv, rv, i as nat) == Ok::<Seq<ValueView>, LiftFailure>(values_view(out@)),
        decreases n - i,
    {
        proof {
            assert(decreases_to!(l@ => l@[i as int]));
            assert(decreases_to!(r@ => r@[i as int]));
        }
        match gcd_pair(&l[i], &r[i]) {
            Ok(v) => {
                let ghost before = out@;
                proof {
                    lemma_values_view(before);
                }
                out.push(v);
                proof {
                    lemma_values_view(out@);
                    assert(values_view(out@) =~= values_view(before).push(out@[i as int]@));
                }
            },
            Err(e) => {
                proof {
                    lemma_gcd_pairs_err(lv, rv, (i + 1) as nat, n as nat);
                }
                return Err(e);
            },
        }
        i = i + 1;
    }
    Ok(out)
}

/// `GCD ( a b -> gcd )`. A failure puts the operands back.
pub fn op_gcd(interp: &mut Interpreter) -> (r: Result<(), AjisaiError>)
    ensures
        same_except_stack(final(interp), old(interp)),
        old(interp).stack@.len() < 2 ==> (r matches Err(AjisaiError::StackUnderflow)),
        r is Err ==> final(interp).stack@ == old(interp).stack@,
        old(interp).stack@.len() >= 2 ==> {
            let ops = top_views(old(interp).stack@, 2);
            match gcd_word(ops[0], ops[1]) {
                Ok(v) => r is Ok && crate::record_ops::pushed_one(final(interp).stack@, base_after(old(interp), 2), v),
                Err(f) => r matches Err(e) && raises(e, f),
            }
        },
{
    let operands = extract_operands(interp, 2)?;
    let ghost ops = top_views(old(interp).stack@, 2);
    proof {
        assert(ops[0] == operands@[0]@);
        assert(ops[1] == operands@[1]@);
        if !keeping(old(interp)) {
            assert(old(interp).stack@.subrange(0, old(interp).stack@.len() - 2) + operands@
                =~= old(interp).stack@);
        }
    }
    match gcd_pair(&operands[0], &operands[1]) {
        Ok(v) => {
            interp.stack.push(v);
            proof {
                assert(interp.stack@.drop_last() =~= base_after(old(interp), 2));
            }
            Ok(())
        },
        Err(e) => {
            restore_operands(interp, operands);
            Err(e)
        },
    }
}

// ── RATIO ────────────────────────────────────────────────────────────────────
/// `RATIO` on an operand: a record lifts value by value; anything else lifts
/// over vectors, and the answer takes the `Unassigned` role (a NIL the
/// `Nil` role).
pub open spec fn ratio_word(x: ValueView) -> Result<ValueView, LiftFailure>
    decreases x, 0nat,
{
    match x.data {
        DataView::Record(k, vs) => as_record(k, ratio_values(vs, vs.len())),
        _ => match lift_unary(UnaryNumeric::Ratio, x) {
            Ok(v) => Ok(with_answer_role(v, Interpretation::Unassigned)),
            Err(e) => Err(e),
        },
    }
}

pub open spec fn ratio_values(items: Seq<ValueView>, n: nat) -> Result<Seq<ValueView>, LiftFailure>
    decreases items, n,
{
    if n == 0 || n > items.len() {
        Ok(Seq::empty())
    } else {
        match ratio_values(items, (n - 1) as nat) {
            Err(e) => Err(e),
            Ok(rest) => match ratio_word(items[n - 1]) {
                Err(e) => Err(e),
                Ok(v) => Ok(rest.push(v)),
            },
        }
    }
}

proof fn lemma_ratio_err(items: Seq<ValueView>, k: nat, n: nat)
    requires
        k <= n <= items.len(),
        ratio_values(items, k) is Err,
    ensures
        ratio_values(items, n) == ratio_values(items, k),
    decreases n,
{
    if n > k {
        lemma_ratio_err(items, k, (n - 1) as nat);
    }
}

/// `RATIO` on an operand (see [`ratio_word`]).
pub fn ratio_one(x: &Value) -> (r: Result<Value, AjisaiError>)
    ensures
        value_matches(r, ratio_word(x@)),
    decreases *x, 0nat,
{
    match &x.data {
        ValueData::Record(rx) => {
            proof {
                assert(decreases_to!(*x => rx.values@));
                lemma_values_view(rx.values@);
            }
            match ratio_record_values(&rx.values) {
                Ok(values) => Ok(record_value(&rx.keys, values)),
                Err(e) => Err(e),
            }
        },
        _ => match lift_unary_numeric(UnaryNumeric::Ratio, x) {
            Ok(v) => {
                let role = if v.is_nil() {
                    Interpretation::Nil
                } else {
                    Interpretation::Unassigned
                };
                Ok(v.with_role(role))
            },
            Err(e) => Err(e),
        },
    }
}

fn ratio_record_values(items: &Vec<Value>) -> (r: Result<Vec<Value>, AjisaiError>)
    ensures
        lanes_match(r, ratio_values(values_view(items@), items@.len())),
    decreases items@, items@.len(),
{
    let ghost iv = values_view(items@);
    proof {
        lemma_values_view(items@);
    }
    let mut out: Vec<Value> = Vec::new();
    let mut i: usize = 0;
    while i < items.len()
        invariant
            0 <= i <= items@.len(),
            iv == values_view(items@),
            iv.len() == items@.len(),
            forall|m: int| 0 <= m < items@.len() ==> #[trigger] iv[m] == items@[m]@,
            out@.len() == i,
            ratio_values(iv, i as nat) == Ok::<Seq<ValueView>, LiftFailure>(values_view(out@)),
        decreases items@.len() - i,
    {
        proof {
            assert(decreases_to!(items@ => items@[i as int]));
        }
        match ratio_one(&items[i]) {
            Ok(v) => {
                let ghost before = out@;
                proof {
                    lemma_values_view(before);
                }
                out.push(v);
                proof {
                    lemma_values_view(out@);
                    assert(values_view(out@) =~= values_view(before).push(out@[i as int]@));
                }
            },
            Err(e) => {
                proof {
                    lemma_ratio_err(iv, (i + 1) as nat, items@.len());
                }
                return Err(e);
            },
        }
        i = i + 1;
    }
    Ok(out)
}

/// `RATIO ( x -> [ numerator denominator ] )`. A failure puts the operand
/// back.
pub fn op_ratio(interp: &mut Interpreter) -> (r: Result<(), AjisaiError>)
    ensures
        same_except_stack(final(interp), old(interp)),
        old(interp).stack@.len() == 0 ==> (r matches Err(AjisaiError::StackUnderflow)),
        r is Err ==> final(interp).stack@ == old(interp).stack@,
        old(interp).stack@.len() > 0 ==> match ratio_word(old(interp).stack@.last()@) {
            Ok(v) => r is Ok && crate::record_ops::pushed_one(final(interp).stack@, base_after(old(interp), 1), v),
            Err(f) => r matches Err(e) && raises(e, f),
        },
{
    let operands = extract_operands(interp, 1)?;
    proof {
        assert(top_views(old(interp).stack@, 1)[0] == operands@[0]@);
        assert(old(interp).stack@.last() == old(interp).stack@[old(interp).stack@.len() - 1]);
        if !keeping(old(interp)) {
            assert(old(interp).stack@.subrange(0, old(interp).stack@.len() - 1) + operands@
                =~= old(interp).stack@);
        }
    }
    match ratio_one(&operands[0]) {
        Ok(v) => {
            interp.stack.push(v);
            proof {
                assert(interp.stack@.drop_last() =~= base_after(old(interp), 1));
            }
            Ok(())
        },
        Err(e) => {
            restore_operands(interp, operands);
            Err(e)
        },
    }
}

} // verus!
