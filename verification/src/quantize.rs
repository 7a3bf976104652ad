//! `QUANTIZE ( x [ d ] -> x' )`: the nearest multiple of `1/d` to `x`, ties
//! away from zero, element by element over vectors and value by value over
//! records. A denominator that is not a positive integer is outside the
//! word's domain and projects a NIL; an operand that is not a single number
//! at all is refused. A NIL operand passes through.
use crate::error::{key_mismatch, AjisaiError};
use crate::interpreter::{base_after, extract_operands, keeping, restore_operands, same_except_stack, top_views, Interpreter};
use crate::rational::{fits_i64_parts, reduced_parts, Fraction};
use crate::record_ops::plain;
use crate::value::{
    copy_values, lemma_values_view, values_view, views_eq, AbsenceMetadata, DataView, Interpretation, NilReason,
    RecordData, Recoverability, Value, ValueData, ValueView,
};
use vstd::prelude::*;

verus! {

/// Why `QUANTIZE` failed.
pub enum QuantizeFailure {
    /// A lane of the subject is not a number.
    NotNumber,
    /// The result does not fit the library's 64-bit fractions.
    Overflow,
    /// The denominator operand is not a single number; the detail the
    /// error carries.
    NonNumericOperand(Seq<char>),
    /// Two records whose key sequences differ.
    ShapeMismatch,
}

// ── Rounding ─────────────────────────────────────────────────────────────────
/// The integer nearest to `p/q` (`q > 0`), halves rounded away from zero.
pub open spec fn round_half_away(p: int, q: int) -> int {
    if p >= 0 {
        (2 * p + q) / (2 * q)
    } else {
        -((-2 * p + q) / (2 * q))
    }
}

/// `round_half_away(p, q)` is the nearest integer to `p/q`, and of two
/// equally near, the one farther from zero.
pub proof fn lemma_round_half_away(p: int, q: int)
    requires
        q > 0,
    ensures
        ({
            let k = round_half_away(p, q);
            &&& -q <= 2 * (p - k * q) <= q
            &&& 2 * (p - k * q) == q ==> p < 0
            &&& 2 * (p - k * q) == -q ==> p > 0
        }),
{
    let k = round_half_away(p, q);
    if p >= 0 {
        let n = 2 * p + q;
        vstd::arithmetic::div_mod::lemma_fundamental_div_mod(n, 2 * q);
        vstd::arithmetic::div_mod::lemma_mod_pos_bound(n, 2 * q);
        assert(n == (2 * q) * k + n % (2 * q));
        assert(2 * (p - k * q) == n % (2 * q) - q) by (nonlinear_arith)
            requires
                n == (2 * q) * k + n % (2 * q),
                n == 2 * p + q,
        ;
        if 2 * (p - k * q) == -q {
            assert(p > 0) by (nonlinear_arith)
                requires
                    2 * (p - k * q) == -q,
                    p >= 0,
                    q > 0,
            ;
        }
    } else {
        let n = -2 * p + q;
        let j = n / (2 * q);
        vstd::arithmetic::div_mod::lemma_fundamental_div_mod(n, 2 * q);
        vstd::arithmetic::div_mod::lemma_mod_pos_bound(n, 2 * q);
        assert(k == -j);
        assert(n == (2 * q) * j + n % (2 * q));
        assert(2 * (p - k * q) == q - n % (2 * q)) by (nonlinear_arith)
            requires
                n == (2 * q) * j + n % (2 * q),
                n == -2 * p + q,
                k == -j,
        ;
    }
}

/// The multiple of `1/d` that `f` quantizes to, as its count of `1/d`s.
pub open spec fn quantum(f: Fraction, d: int) -> int {
    round_half_away(f.num() * d, f.den())
}

/// `k/d` as a number, when its parts fit.
pub open spec fn quantized_number(k: int, d: int) -> Result<ValueView, QuantizeFailure> {
    if -(i64::MAX as int) <= k <= i64::MAX && fits_i64_parts(reduced_parts(k, d)) {
        Ok(plain(DataView::Scalar(Fraction::from_parts(reduced_parts(k, d)))))
    } else {
        Err(QuantizeFailure::Overflow)
    }
}

/// A number `QUANTIZE` answers is `k/d` for the `k` nearest to `x·d`
/// (halves away from zero), and its denominator is at most `d`: quantizing
/// bounds the denominator whatever the input's was.
pub proof fn law_quantized_number(f: Fraction, d: int)
    requires
        d > 0,
        f.den() > 0,
        quantized_number(quantum(f, d), d) is Ok,
    ensures
        quantized_number(quantum(f, d), d) matches Ok(v) && v.data matches DataView::Scalar(g) && 0 < g.den()
            <= d && g.num() * d == quantum(f, d) * g.den(),
        -f.den() <= 2 * (f.num() * d - quantum(f, d) * f.den()) <= f.den(),
        2 * (f.num() * d - quantum(f, d) * f.den()) == f.den() ==> f.num() * d < 0,
        2 * (f.num() * d - quantum(f, d) * f.den()) == -f.den() ==> f.num() * d > 0,
{
    let k = quantum(f, d);
    let parts = reduced_parts(k, d);
    crate::rational::lemma_reduced_parts(k, d);
    Fraction::lemma_from_parts_fits(parts);
    lemma_round_half_away(f.num() * d, f.den());
}

/// The subject quantized to multiples of `1/d`: a number rounds, a vector
/// goes lane by lane (the first failure in order wins), a NIL passes
/// through, anything else is not a number.
pub open spec fn quantize_lanes(x: ValueView, d: int) -> Result<ValueView, QuantizeFailure>
    decreases x, 0nat,
{
    match x.data {
        DataView::Nil => Ok(x),
        DataView::Scalar(f) => quantized_number(quantum(f, d), d),
        DataView::Vector(items) => match quantize_items(items, d, items.len()) {
            Ok(out) => Ok(plain(DataView::Vector(out))),
            Err(e) => Err(e),
        },
        _ => Err(QuantizeFailure::NotNumber),
    }
}

pub open spec fn quantize_items(items: Seq<ValueView>, d: int, n: nat) -> Result<Seq<ValueView>, QuantizeFailure>
    decreases items, n,
{
    if n == 0 || n > items.len() {
        Ok(Seq::empty())
    } else {
        match quantize_items(items, d, (n - 1) as nat) {
            Err(e) => Err(e),
            Ok(rest) => match quantize_lanes(items[n - 1], d) {
                Err(e) => Err(e),
                Ok(v) => Ok(rest.push(v)),
            },
        }
    }
}

proof fn lemma_items_err(items: Seq<ValueView>, d: int, k: nat, n: nat)
    requires
        k <= n <= items.len(),
        quantize_items(items, d, k) is Err,
    ensures
        quantize_items(items, d, n) == quantize_items(items, d, k),
    decreases n,
{
    if n > k {
        lemma_items_err(items, d, k, (n - 1) as nat);
    }
}

/// What a denominator operand that is not a single number is reported as.
pub open spec fn not_a_denominator(v: ValueView) -> Seq<char> {
    match v.data {
        DataView::Vector(_) => "QUANTIZE: expected a single-element number, got a multi-element vector"@,
        DataView::Text(_) => "QUANTIZE: expected a number, got a string"@,
        DataView::Boolean(_) => "QUANTIZE: expected a number, got a boolean"@,
        DataView::Record(_, _) => "QUANTIZE: expected a number, got a record"@,
        DataView::Symbol(_) => "QUANTIZE: expected a number, got a symbol"@,
        DataView::Nil => "QUANTIZE: expected a number, got NIL"@,
        DataView::Unknown(_) => "QUANTIZE: expected a number, got UNKNOWN"@,
        DataView::CodeBlock(_) => "QUANTIZE: expected a number, got a code block"@,
        DataView::Scalar(_) => Seq::empty(),
    }
}

/// The single number a denominator operand denotes: a number, or a vector
/// of exactly one such operand.
pub open spec fn denominator_of(v: ValueView) -> Result<Fraction, QuantizeFailure>
    decreases v,
{
    match v.data {
        DataView::Scalar(f) => Ok(f),
        DataView::Vector(items) => if items.len() == 1 {
            denominator_of(items[0])
        } else {
            Err(QuantizeFailure::NonNumericOperand(not_a_denominator(v)))
        },
        _ => Err(QuantizeFailure::NonNumericOperand(not_a_denominator(v))),
    }
}

/// The NIL a denominator outside the domain projects.
pub open spec fn domain_miss() -> Value {
    Value {
        data: ValueData::Nil,
        hint: Interpretation::Nil,
        absence: Some(
            AbsenceMetadata { reason: Some(NilReason::DomainMiss), recoverability: Recoverability::Unknown, detail: None },
        ),
    }
}

/// `QUANTIZE` on a subject and a denominator operand: a NIL passes through
/// (the subject's first); records lift value by value (two records need the
/// same keys); otherwise the denominator must be a single number, a
/// positive integer `d` quantizes the subject to multiples of `1/d`, and any
/// other number projects a domain-miss NIL.
pub open spec fn quantize_spec(x: ValueView, dv: ValueView) -> Result<ValueView, QuantizeFailure>
    decreases x, dv, 0nat,
{
    if x.data is Nil {
        Ok(x)
    } else if dv.data is Nil {
        Ok(dv)
    } else {
        match (x.data, dv.data) {
            (DataView::Record(kx, vx), DataView::Record(ky, vy)) => if views_eq(kx, ky) {
                with_keys(kx, quantize_pairs(vx, vy, shorter(vx, vy)))
            } else {
                Err(QuantizeFailure::ShapeMismatch)
            },
            (DataView::Record(kx, vx), _) => with_keys(kx, quantize_left(vx, dv, vx.len())),
            (_, DataView::Record(ky, vy)) => with_keys(ky, quantize_right(x, vy, vy.len())),
            _ => match denominator_of(dv) {
                Err(e) => Err(e),
                Ok(f) => if f.den() == 1 && f.num() > 0 {
                    quantize_lanes(x, f.num())
                } else {
                    Ok(domain_miss()@)
                },
            },
        }
    }
}

/// A record over `keys` with the lifted values.
pub open spec fn with_keys(keys: Seq<ValueView>, r: Result<Seq<ValueView>, QuantizeFailure>) -> Result<ValueView, QuantizeFailure> {
    match r {
        Ok(values) => Ok(plain(DataView::Record(keys, values))),
        Err(e) => Err(e),
    }
}

pub open spec fn quantize_left(items: Seq<ValueView>, dv: ValueView, n: nat) -> Result<Seq<ValueView>, QuantizeFailure>
    decreases items, dv, n,
{
    if n == 0 || n > items.len() {
        Ok(Seq::empty())
    } else {
        match quantize_left(items, dv, (n - 1) as nat) {
            Err(e) => Err(e),
            Ok(rest) => match quantize_spec(items[n - 1], dv) {
                Err(e) => Err(e),
                Ok(v) => Ok(rest.push(v)),
            },
        }
    }
}

pub open spec fn quantize_right(x: ValueView, items: Seq<ValueView>, n: nat) -> Result<Seq<ValueView>, QuantizeFailure>
    decreases x, items, n,
{
    if n == 0 || n > items.len() {
        Ok(Seq::empty())
    } else {
        match quantize_right(x, items, (n - 1) as nat) {
            Err(e) => Err(e),
            Ok(rest) => match quantize_spec(x, items[n - 1]) {
                Err(e) => Err(e),
                Ok(v) => Ok(rest.push(v)),
            },
        }
    }
}

/// The length of the shorter of two value lists.
pub open spec fn shorter(l: Seq<ValueView>, r: Seq<ValueView>) -> nat {
    if l.len() < r.len() {
        l.len()
    } else {
        r.len()
    }
}

/// The first `n` value pairs of two records.
pub open spec fn quantize_pairs(l: Seq<ValueView>, r: Seq<ValueView>, n: nat) -> Result<Seq<ValueView>, QuantizeFailure>
    decreases l, r, n,
{
    if n == 0 || n > l.len() || n > r.len() {
        Ok(Seq::empty())
    } else {
        match quantize_pairs(l, r, (n - 1) as nat) {
            Err(e) => Err(e),
            Ok(rest) => match quantize_spec(l[n - 1], r[n - 1]) {
                Err(e) => Err(e),
                Ok(v) => Ok(rest.push(v)),
            },
        }
    }
}

proof fn lemma_left_err(items: Seq<ValueView>, dv: ValueView, k: nat, n: nat)
    requires
        k <= n <= items.len(),
        quantize_left(items, dv, k) is Err,
    ensures
        quantize_left(items, dv, n) == quantize_left(items, dv, k),
    decreases n,
{
    if n > k {
        lemma_left_err(items, dv, k, (n - 1) as nat);
    }
}

proof fn lemma_right_err(x: ValueView, items: Seq<ValueView>, k: nat, n: nat)
    requires
        k <= n <= items.len(),
        quantize_right(x, items, k) is Err,
    ensures
        quantize_right(x, items, n) == quantize_right(x, items, k),
    decreases n,
{
    if n > k {
        lemma_right_err(x, items, k, (n - 1) as nat);
    }
}

proof fn lemma_pairs_err(l: Seq<ValueView>, r: Seq<ValueView>, k: nat, n: nat)
    requires
        k <= n,
        n <= l.len(),
        n <= r.len(),
        quantize_pairs(l, r, k) is Err,
    ensures
        quantize_pairs(l, r, n) == quantize_pairs(l, r, k),
    decreases n,
{
    if n > k {
        lemma_pairs_err(l, r, k, (n - 1) as nat);
    }
}

// ── Executable ───────────────────────────────────────────────────────────────
/// The error a failure raises.
pub open spec fn raises(e: AjisaiError, f: QuantizeFailure) -> bool {
    match f {
        QuantizeFailure::NotNumber => e matches AjisaiError::TypeError { expected: x, got: y } && x == "number" && y
            == "non-numeric value",
        QuantizeFailure::Overflow => e is ArithmeticOverflow,
        QuantizeFailure::NonNumericOperand(m) => e.declares("nonNumeric", m),
        QuantizeFailure::ShapeMismatch => e.declares("shapeMismatch", key_mismatch()),
    }
}

pub open spec fn value_matches(r: Result<Value, AjisaiError>, s: Result<ValueView, QuantizeFailure>) -> bool {
    match s {
        Ok(v) => r matches Ok(x) && x@ == v,
        Err(f) => r matches Err(e) && raises(e, f),
    }
}

pub open spec fn lanes_match(r: Result<Vec<Value>, AjisaiError>, s: Result<Seq<ValueView>, QuantizeFailure>) -> bool {
    match s {
        Ok(v) => r matches Ok(x) && values_view(x@) == v,
        Err(f) => r matches Err(e) && raises(e, f),
    }
}

fn quantize_number(f: &Fraction, d: i64) -> (r: Result<Value, AjisaiError>)
    requires
        d > 0,
    ensures
        value_matches(r, quantized_number(quantum(*f, d as int), d as int)),
{
    f.bounds();
    let n = f.numerator();
    let q = f.denominator() as u128;
    let an: u128 = if n < 0 {
        (-(n as i128)) as u128
    } else {
        n as u128
    };
    let du = d as u128;
    assert(an * du < 0x4000_0000_0000_0000_0000_0000_0000_0000) by (nonlinear_arith)
        requires
            an <= 0x7fff_ffff_ffff_ffff,
            du <= 0x7fff_ffff_ffff_ffff,
    ;
    let a = an * du;
    let t = (2 * a + q) / (2 * q);
    proof {
        let p = n as int * d as int;
        assert(a as int == crate::rational::abs_int(p)) by (nonlinear_arith)
            requires
                a == an * du,
                an as int == crate::rational::abs_int(n as int),
                du as int == d as int,
                d > 0,
                p == n as int * d as int,
        ;
        assert((p >= 0) == (n >= 0)) by (nonlinear_arith)
            requires
                p == n as int * d as int,
                d > 0,
        ;
        assert(t <= 2 * a + q) by (nonlinear_arith)
            requires
                t == (2 * a + q) / (2 * q),
                q > 0,
        ;
    }
    if t > i64::MAX as u128 {
        return Err(AjisaiError::ArithmeticOverflow);
    }
    let k: i64 = if n < 0 {
        -(t as i64)
    } else {
        t as i64
    };
    assert(k as int == quantum(*f, d as int));
    match Fraction::new(k, d) {
        Some(g) => {
            proof {
                Fraction::lemma_from_parts(g);
            }
            Ok(Value::from_fraction(g))
        },
        None => Err(AjisaiError::ArithmeticOverflow),
    }
}

fn not_number() -> (e: AjisaiError)
    ensures
        raises(e, QuantizeFailure::NotNumber),
{
    AjisaiError::TypeError { expected: "number", got: "non-numeric value" }
}

/// The subject quantized to multiples of `1/d`, lane by lane.
pub fn quantize_subject(x: &Value, d: i64) -> (r: Result<Value, AjisaiError>)
    requires
        d > 0,
    ensures
        value_matches(r, quantize_lanes(x@, d as int)),
    decreases *x, 0nat,
{
    match &x.data {
        ValueData::Nil => Ok(x.duplicate()),
        ValueData::Scalar(f) => quantize_number(f, d),
        ValueData::Vector(u) => {
            proof {
                assert(decreases_to!(*x => (**u)@));
                lemma_values_view((**u)@);
            }
            match quantize_item_lanes(&**u, d) {
                Ok(items) => Ok(Value::from_children(items)),
                Err(e) => Err(e),
            }
        },
        _ => Err(not_number()),
    }
}

fn quantize_item_lanes(items: &Vec<Value>, d: i64) -> (r: Result<Vec<Value>, AjisaiError>)
    requires
        d > 0,
    ensures
        lanes_match(r, quantize_items(values_view(items@), d as int, items@.len())),
    decreases items@, items@.len(),
{
    let ghost iv = values_view(items@);
    proof {
        lemma_values_view(items@);
    }
    let mut out: Vec<Value> = Vec::new();
    let mut i: usize = 0;
    while i < items.len()
        invariant
            0 <= i <= items@.len(),
            d > 0,
            iv == values_view(items@),
            iv.len() == items@.len(),
            forall|m: int| 0 <= m < items@.len() ==> #[trigger] iv[m] == items@[m]@,
            out@.len() == i,
            quantize_items(iv, d as int, i as nat) == Ok::<Seq<ValueView>, QuantizeFailure>(values_view(out@)),
        decreases items@.len() - i,
    {
        proof {
            assert(decreases_to!(items@ => items@[i as int]));
        }
        match quantize_subject(&items[i], d) {
            Ok(v) => {
                let ghost before = out@;
                proof {
                    lemma_values_view(before);
                }
                out.push(v);
                proof {
                    lemma_values_view(out@);
                    assert(values_view(out@) =~= values_view(before).push(out@[i as int]@));
                }
            },
            Err(e) => {
                proof {
                    lemma_items_err(iv, d as int, (i + 1) as nat, items@.len());
                }
                return Err(e);
            },
        }
        i = i + 1;
    }
    Ok(out)
}

/// The single number a denominator operand denotes.
pub fn single_rational_operand(v: &Value) -> (r: Result<Fraction, AjisaiError>)
    ensures
        match denominator_of(v@) {
            Ok(f) => r == Ok::<Fraction, AjisaiError>(f),
            Err(e) => r matches Err(x) && raises(x, e),
        },
    decreases *v,
{
    match &v.data {
        ValueData::Scalar(f) => Ok(*f),
        ValueData::Vector(u) => {
            proof {
                lemma_values_view((**u)@);
            }
            if u.len() == 1 {
                proof {
                    assert(decreases_to!(*v => (**u)@));
                    assert(decreases_to!((**u)@ => (**u)@[0]));
                }
                single_rational_operand(&u[0])
            } else {
                Err(AjisaiError::declared(
                    "nonNumeric",
                    "QUANTIZE: expected a single-element number, got a multi-element vector",
                ))
            }
        },
        ValueData::Text(_) => Err(AjisaiError::declared("nonNumeric", "QUANTIZE: expected a number, got a string")),
        ValueData::Boolean(_) => Err(AjisaiError::declared("nonNumeric", "QUANTIZE: expected a number, got a boolean")),
        ValueData::Record(_) => Err(AjisaiError::declared("nonNumeric", "QUANTIZE: expected a number, got a record")),
        ValueData::Symbol(_) => Err(AjisaiError::declared("nonNumeric", "QUANTIZE: expected a number, got a symbol")),
        ValueData::Nil => Err(AjisaiError::declared("nonNumeric", "QUANTIZE: expected a number, got NIL")),
        ValueData::Unknown(_) => Err(AjisaiError::declared("nonNumeric", "QUANTIZE: expected a number, got UNKNOWN")),
        ValueData::CodeBlock(_) => Err(AjisaiError::declared("nonNumeric", "QUANTIZE: expected a number, got a code block")),
    }
}

fn domain_miss_value() -> (r: Value)
    ensures
        r@ == domain_miss()@,
{
    Value::nil_with_reason_unknown(NilReason::DomainMiss)
}

fn record_value(keys: &Vec<Value>, values: Vec<Value>) -> (r: Value)
    ensures
        r@ == plain(DataView::Record(values_view(keys@), values_view(values@))),
{
    let k = copy_values(keys);
    Value::from_record(RecordData { keys: k, values })
}

/// `QUANTIZE` on a subject and a denominator operand (see
/// [`quantize_spec`]).
pub fn quantize_pair(x: &Value, dv: &Value) -> (r: Result<Value, AjisaiError>)
    ensures
        value_matches(r, quantize_spec(x@, dv@)),
    decreases *x, *dv, 0nat,
{
    if x.is_nil() {
        return Ok(x.duplicate());
    }
    if dv.is_nil() {
        return Ok(dv.duplicate());
    }
    match (&x.data, &dv.data) {
        (ValueData::Record(rx), ValueData::Record(ry)) => {
            proof {
                assert(decreases_to!(*x => rx.values@));
                assert(decreases_to!(*dv => ry.values@));
                lemma_values_view(rx.values@);
                lemma_values_view(ry.values@);
            }
            if !crate::value::seq_values_equal(&rx.keys, &ry.keys) {
                return Err(AjisaiError::declared(
                    "shapeMismatch",
                    "two Records combine only when their key sequences are equal",
                ));
            }
            match quantize_pair_values(&rx.values, &ry.values) {
                Ok(values) => Ok(record_value(&rx.keys, values)),
                Err(e) => Err(e),
            }
        },
        (ValueData::Record(rx), _) => {
            proof {
                assert(decreases_to!(*x => rx.values@));
                lemma_values_view(rx.values@);
            }
            match quantize_left_values(&rx.values, dv) {
                Ok(values) => Ok(record_value(&rx.keys, values)),
                Err(e) => Err(e),
            }
        },
        (_, ValueData::Record(ry)) => {
            proof {
                assert(decreases_to!(*dv => ry.values@));
                lemma_values_view(ry.values@);
            }
            match quantize_right_values(x, &ry.values) {
                Ok(values) => Ok(record_value(&ry.keys, values)),
                Err(e) => Err(e),
            }
        },
        _ => {
            let f = single_rational_operand(dv)?;
            if f.is_integer() && f.denominator() == 1 && f.numerator() > 0 {
                quantize_subject(x, f.numerator())
            } else {
                Ok(domain_miss_value())
            }
        },
    }
}

fn quantize_left_values(items: &Vec<Value>, dv: &Value) -> (r: Result<Vec<Value>, AjisaiError>)
    ensures
        lanes_match(r, quantize_left(values_view(items@), dv@, items@.len())),
    decreases items@, *dv, items@.len(),
{
    let ghost iv = values_view(items@);
    proof {
        lemma_values_view(items@);
    }
    let mut out: Vec<Value> = Vec::new();
    let mut i: usize = 0;
    while i < items.len()
        invariant
            0 <= i <= items@.len(),
            iv == values_view(items@),
            iv.len() == items@.len(),
            forall|m: int| 0 <= m < items@.len() ==> #[trigger] iv[m] == items@[m]@,
            out@.len() == i,
            quantize_left(iv, dv@, i as nat) == Ok::<Seq<ValueView>, QuantizeFailure>(values_view(out@)),
        decreases items@.len() - i,
    {
        proof {
            assert(decreases_to!(items@ => items@[i as int]));
        }
        match quantize_pair(&items[i], dv) {
            Ok(v) => {
                let ghost before = out@;
                proof {
                    lemma_values_view(before);
                }
                out.push(v);
                proof {
                    lemma_values_view(out@);
                    assert(values_view(out@) =~= values_view(before).push(out@[i as int]@));
                }
            },
            Err(e) => {
                proof {
                    lemma_left_err(iv, dv@, (i + 1) as nat, items@.len());
                }
                return Err(e);
            },
        }
        i = i + 1;
    }
    Ok(out)
}

fn quantize_right_values(x: &Value, items: &Vec<Value>) -> (r: Result<Vec<Value>, AjisaiError>)
    ensures
        lanes_match(r, quantize_right(x@, values_view(items@), items@.len())),
    decreases *x, items@, items@.len(),
{
    let ghost iv = values_view(items@);
    proof {
        lemma_values_view(items@);
    }
    let mut out: Vec<Value> = Vec::new();
    let mut i: usize = 0;
    while i < items.len()
        invariant
            0 <= i <= items@.len(),
            iv == values_view(items@),
            iv.len() == items@.len(),
            forall|m: int| 0 <= m < items@.len() ==> #[trigger] iv[m] == items@[m]@,
            out@.len() == i,
            quantize_right(x@, iv, i as nat) == Ok::<Seq<ValueView>, QuantizeFailure>(values_view(out@)),
        decreases items@.len() - i,
    {
        proof {
            assert(decreases_to!(items@ => items@[i as int]));
        }
        match quantize_pair(x, &items[i]) {
            Ok(v) => {
                let ghost before = out@;
                proof {
                    lemma_values_view(before);
                }
                out.push(v);
                proof {
                    lemma_values_view(out@);
                    assert(values_view(out@) =~= values_view(before).push(out@[i as int]@));
                }
            },
            Err(e) => {
                proof {
                    lemma_right_err(x@, iv, (i + 1) as nat, items@.len());
                }
                return Err(e);
            },
        }
        i = i + 1;
    }
    Ok(out)
}

fn quantize_pair_values(l: &Vec<Value>, r: &Vec<Value>) -> (res: Result<Vec<Value>, AjisaiError>)
    ensures
        lanes_match(res, quantize_pairs(values_view(l@), values_view(r@), shorter(values_view(l@), values_view(r@)))),
    decreases l@, r@, l@.len(),
{
    let ghost lv = values_view(l@);
    let ghost rv = values_view(r@);
    proof {
        lemma_values_view(l@);
        lemma_values_view(r@);
    }
    let n = if l.len() < r.len() {
        l.len()
    } else {
        r.len()
    };
    let mut out: Vec<Value> = Vec::new();
    let mut i: usize = 0;
    while i < n
        invariant
            0 <= i <= n,
            n <= l@.len(),
            n <= r@.len(),
            n == shorter(lv, rv),
            lv == values_view(l@),
            rv == values_view(r@),
            lv.len() == l@.len(),
            rv.len() == r@.len(),
            forall|m: int| 0 <= m < l@.len() ==> #[trigger] lv[m] == l@[m]@,
            forall|m: int| 0 <= m < r@.len() ==> #[trigger] rv[m] == r@[m]@,
            out@.len() == i,
            quantize_pairs(lv, rv, i as nat) == Ok::<Seq<ValueView>, QuantizeFailure>(values_view(out@)),
        decreases n - i,
    {
        proof {
            assert(decreases_to!(l@ => l@[i as int]));
            assert(decreases_to!(r@ => r@[i as int]));
        }
        match quantize_pair(&l[i], &r[i]) {
            Ok(v) => {
                let ghost before = out@;
                proof {
                    lemma_values_view(before);
                }
                out.push(v);
                proof {
                    lemma_values_view(out@);
                    assert(values_view(out@) =~= values_view(before).push(out@[i as int]@));
                }
            },
            Err(e) => {
                proof {
                    lemma_pairs_err(lv, rv, (i + 1) as nat, n as nat);
                }
                return Err(e);
            },
        }
        i = i + 1;
    }
    Ok(out)
}

/// `QUANTIZE ( x d -> x' )` on the stack: the answer replaces the operands
/// (under `KEEP` it goes above them); a failure puts the operands back.
pub fn op_quantize(interp: &mut Interpreter) -> (r: Result<(), AjisaiError>)
    ensures
        same_except_stack(final(interp), old(interp)),
        old(interp).stack@.len() < 2 ==> (r matches Err(AjisaiError::StackUnderflow)),
        r is Err ==> final(interp).stack@ == old(interp).stack@,
        old(interp).stack@.len() >= 2 ==> {
            let ops = top_views(old(interp).stack@, 2);
            match quantize_spec(ops[0], ops[1]) {
                Ok(v) => r is Ok && crate::record_ops::pushed_one(final(interp).stack@, base_after(old(interp), 2), v),
                Err(f) => r matches Err(e) && raises(e, f),
            }
        },
{
    let operands = extract_operands(interp, 2)?;
    let ghost ops = top_views(old(interp).stack@, 2);
    proof {
        assert(ops[0] == operands@[0]@);
        assert(ops[1] == operands@[1]@);
        if !keeping(old(interp)) {
            assert(old(interp).stack@.subrange(0, old(interp).stack@.len() - 2) + operands@
                =~= old(interp).stack@);
        }
    }
    match quantize_pair(&operands[0], &operands[1]) {
        Ok(v) => {
            interp.stack.push(v);
            proof {
                assert(interp.stack@.drop_last() =~= base_after(old(interp), 2));
            }
            Ok(())
        },
        Err(e) => {
            restore_operands(interp, operands);
            Err(e)
        },
    }
}

} // verus!
