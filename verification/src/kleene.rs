//! Strong Kleene three-valued logic (K3) for `AND` / `OR` / `NOT`, with the
//! NIL/Unknown interaction rules: `F` absorbs `AND` and `T` absorbs `OR` even
//! over NIL and U; otherwise NIL takes priority over U; otherwise U propagates.
use crate::value::{truthy, Interpretation, Value, ValueData};
use vstd::prelude::*;

verus! {

/// An operand of a logic word: the truth domain {True, False, Unknown} plus
/// the operational `Nil` category.
#[derive(Clone, Copy, PartialEq, Eq, Debug, Structural)]
pub enum Ternary {
    True,
    False,
    Unknown,
    Nil,
}

/// The K3 class of a value: U first, then NIL, then truthiness.
pub open spec fn classify_spec(v: Value) -> Ternary {
    if v.data is Unknown {
        Ternary::Unknown
    } else if v.data is Nil {
        Ternary::Nil
    } else if truthy(v) {
        Ternary::True
    } else {
        Ternary::False
    }
}

pub open spec fn meet_spec(a: Ternary, b: Ternary) -> Ternary {
    if a == Ternary::False || b == Ternary::False {
        Ternary::False
    } else if a == Ternary::Nil || b == Ternary::Nil {
        Ternary::Nil
    } else if a == Ternary::Unknown || b == Ternary::Unknown {
        Ternary::Unknown
    } else {
        Ternary::True
    }
}

pub open spec fn join_spec(a: Ternary, b: Ternary) -> Ternary {
    if a == Ternary::True || b == Ternary::True {
        Ternary::True
    } else if a == Ternary::Nil || b == Ternary::Nil {
        Ternary::Nil
    } else if a == Ternary::Unknown || b == Ternary::Unknown {
        Ternary::Unknown
    } else {
        Ternary::False
    }
}

pub open spec fn involution_spec(a: Ternary) -> Ternary {
    match a {
        Ternary::True => Ternary::False,
        Ternary::False => Ternary::True,
        Ternary::Unknown => Ternary::Unknown,
        Ternary::Nil => Ternary::Nil,
    }
}

/// A definite Boolean carrying the truth-value role.
pub open spec fn is_truth_bool(v: Value, b: bool) -> bool {
    v.data == ValueData::Boolean(b) && v.hint == Interpretation::TruthValue && v.absence is None
}

/// The value a K3 result materialises as.
pub open spec fn materialised(t: Ternary, v: Value) -> bool {
    match t {
        Ternary::True => is_truth_bool(v, true),
        Ternary::False => is_truth_bool(v, false),
        Ternary::Unknown => v.data == ValueData::Unknown(None) && v.hint == Interpretation::TruthValue
            && v.absence is None,
        Ternary::Nil => v.data is Nil && (v.absence matches Some(m) && m.reason is None),
    }
}

impl Ternary {
    /// Classify a value for K3 combination.
    pub fn classify(value: &Value) -> (r: Ternary)
        ensures
            r == classify_spec(*value),
    {
        if value.is_unknown() {
            Ternary::Unknown
        } else if value.is_nil() {
            Ternary::Nil
        } else if value.is_truthy() {
            Ternary::True
        } else {
            Ternary::False
        }
    }

    /// Materialise a result: T/F as truth-role Booleans, U as a bare Unknown,
    /// NIL as a plain NIL.
    pub fn into_value(self) -> (r: Value)
        ensures
            materialised(self, r),
    {
        match self {
            Ternary::True => truth_bool(true),
            Ternary::False => truth_bool(false),
            Ternary::Unknown => Value::unknown(),
            Ternary::Nil => Value::nil(),
        }
    }
}

/// Materialise a K3 result; when it is U, carry over the diagnosis of the
/// first U operand (a copy of that operand), never inventing one.
pub fn into_value_with_diagnosis(result: Ternary, operands: &[&Value]) -> (r: Value)
    ensures
        result != Ternary::Unknown ==> materialised(result, r),
        result == Ternary::Unknown ==> (match first_unknown(operands@) {
            Some(i) => r@ == (*operands@[i])@,
            None => materialised(Ternary::Unknown, r),
        }),
{
    if result != Ternary::Unknown {
        return result.into_value();
    }
    let mut i: usize = 0;
    while i < operands.len()
        invariant
            0 <= i <= operands@.len(),
            forall|j: int| 0 <= j < i ==> !((*operands@[j]).data is Unknown),
            result == Ternary::Unknown,
        decreases operands@.len() - i,
    {
        if operands[i].is_unknown() {
            proof {
                lemma_first_unknown_is(operands@, i as int);
            }
            return operands[i].duplicate();
        }
        i = i + 1;
    }
    proof {
        lemma_first_unknown_none(operands@);
    }
    result.into_value()
}

/// Index of the first operand that is U.
pub open spec fn first_unknown(s: Seq<&Value>) -> Option<int>
    decreases s.len(),
{
    if s.len() == 0 {
        None
    } else if (*s[0]).data is Unknown {
        Some(0)
    } else {
        match first_unknown(s.drop_first()) {
            Some(i) => Some(i + 1),
            None => None,
        }
    }
}

proof fn lemma_first_unknown_is(s: Seq<&Value>, i: int)
    requires
        0 <= i < s.len(),
        (*s[i]).data is Unknown,
        forall|j: int| 0 <= j < i ==> !((*s[j]).data is Unknown),
    ensures
        first_unknown(s) == Some(i),
    decreases i,
{
    if i > 0 {
        lemma_first_unknown_is(s.drop_first(), i - 1);
    }
}

proof fn lemma_first_unknown_none(s: Seq<&Value>)
    requires
        forall|j: int| 0 <= j < s.len() ==> !((*s[j]).data is Unknown),
    ensures
        first_unknown(s) is None,
    decreases s.len(),
{
    if s.len() > 0 {
        lemma_first_unknown_none(s.drop_first());
    }
}

/// A definite `true`/`false` carrying the truth-value role.
pub fn truth_bool(b: bool) -> (r: Value)
    ensures
        is_truth_bool(r, b),
{
    Value::from_bool(b).with_role(Interpretation::TruthValue)
}

/// K3 meet (`AND`).
pub fn meet_k3(a: Ternary, b: Ternary) -> (r: Ternary)
    ensures
        r == meet_spec(a, b),
{
    if a == Ternary::False || b == Ternary::False {
        Ternary::False
    } else if a == Ternary::Nil || b == Ternary::Nil {
        Ternary::Nil
    } else if a == Ternary::Unknown || b == Ternary::Unknown {
        Ternary::Unknown
    } else {
        Ternary::True
    }
}

/// K3 join (`OR`).
pub fn join_k3(a: Ternary, b: Ternary) -> (r: Ternary)
    ensures
        r == join_spec(a, b),
{
    if a == Ternary::True || b == Ternary::True {
        Ternary::True
    } else if a == Ternary::Nil || b == Ternary::Nil {
        Ternary::Nil
    } else if a == Ternary::Unknown || b == Ternary::Unknown {
        Ternary::Unknown
    } else {
        Ternary::False
    }
}

/// K3 involution (`NOT`): `¬T=F`, `¬F=T`, `¬U=U`, NIL stays NIL.
pub fn involution_k3(a: Ternary) -> (r: Ternary)
    ensures
        r == involution_spec(a),
{
    match a {
        Ternary::True => Ternary::False,
        Ternary::False => Ternary::True,
        Ternary::Unknown => Ternary::Unknown,
        Ternary::Nil => Ternary::Nil,
    }
}

/// `AND` and `OR` are commutative, associative and idempotent.
pub proof fn law_meet_join_lattice(a: Ternary, b: Ternary, c: Ternary)
    ensures
        meet_spec(a, b) == meet_spec(b, a),
        join_spec(a, b) == join_spec(b, a),
        meet_spec(meet_spec(a, b), c) == meet_spec(a, meet_spec(b, c)),
        join_spec(join_spec(a, b), c) == join_spec(a, join_spec(b, c)),
        meet_spec(a, a) == a,
        join_spec(a, a) == a,
{
}

/// `F` absorbs `AND` and `T` absorbs `OR`, even against NIL and U; `T` is the
/// identity of `AND` and `F` the identity of `OR`.
pub proof fn law_absorbing_and_identity(a: Ternary)
    ensures
        meet_spec(Ternary::False, a) == Ternary::False,
        join_spec(Ternary::True, a) == Ternary::True,
        meet_spec(Ternary::True, a) == a,
        join_spec(Ternary::False, a) == a,
{
}

/// Without an absorbing operand, NIL takes priority over U in both `AND` and
/// `OR`.
pub proof fn law_nil_over_unknown()
    ensures
        meet_spec(Ternary::Nil, Ternary::Unknown) == Ternary::Nil,
        meet_spec(Ternary::Unknown, Ternary::Nil) == Ternary::Nil,
        join_spec(Ternary::Nil, Ternary::Unknown) == Ternary::Nil,
        join_spec(Ternary::Unknown, Ternary::Nil) == Ternary::Nil,
{
}

/// `NOT` is an involution and the De Morgan laws hold over all four classes.
pub proof fn law_involution_de_morgan(a: Ternary, b: Ternary)
    ensures
        involution_spec(involution_spec(a)) == a,
        involution_spec(meet_spec(a, b)) == join_spec(involution_spec(a), involution_spec(b)),
        involution_spec(join_spec(a, b)) == meet_spec(involution_spec(a), involution_spec(b)),
{
}

/// Classification separates U from NIL: a U is never classified as NIL and a
/// NIL never as U.
pub proof fn law_classify_separates_unknown(v: Value)
    ensures
        v.data is Unknown <==> classify_spec(v) == Ternary::Unknown,
        v.data is Nil <==> classify_spec(v) == Ternary::Nil,
{
}

} // verus!
