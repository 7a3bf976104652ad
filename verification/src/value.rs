//! Values: NIL, UNKNOWN, truth values, numbers, text, symbols, vectors,
//! records and code blocks, each with the interpretation role it was made
//! with and, for a NIL, why it is absent. Every value has a view that the
//! contracts speak of.
use crate::rational::Fraction;
use std::rc::Rc;
use vstd::prelude::*;

verus! {

/// The interpretation role a value was constructed with; it decides how the
/// value is read (a number, a truth value, text, an absence) and rendered.
#[derive(Clone, Copy, Debug, PartialEq, Eq, Structural)]
pub enum Interpretation {
    Auto,
    Unassigned,
    RawNumber,
    TruthValue,
    Text,
    Nil,
}

/// Why an operational NIL exists.
#[derive(Clone, Copy, Debug, PartialEq, Eq, Structural)]
pub enum NilReason {
    DivisionByZero,
    DomainMiss,
    Undecidable,
    SpaceExhausted,
    NotFound,
    MissingField,
    UserDeclared,
    InvalidEncoding,
    /// A word was asked for something its operand does not carry.
    NotAvailable,
}

/// Whether retrying with different input (or a larger budget) can resolve an
/// absence.
#[derive(Clone, Copy, Debug, PartialEq, Eq, Structural)]
pub enum Recoverability {
    Recoverable,
    Retryable,
    Unknown,
}

/// What an operational NIL carries: its reason, its recoverability and, for a
/// user-declared absence, the declared text.
#[derive(Clone, Debug, PartialEq, Eq)]
pub struct AbsenceMetadata {
    pub reason: Option<NilReason>,
    pub recoverability: Recoverability,
    pub detail: Option<String>,
}

/// The comparison diagnosis a logical Unknown may carry: the word that could
/// not decide and how many leading terms agreed before the budget ran out.
#[derive(Clone, Debug, PartialEq, Eq)]
pub struct NilDiagnosis {
    pub origin: Option<String>,
    pub agreed_prefix: Option<usize>,
}

/// A source token of the language.
#[derive(Clone, Debug, PartialEq, Eq)]
pub enum Token {
    Number(String),
    String(String),
    Symbol(String),
    VectorStart,
    VectorEnd,
    LineBreak,
    SafeMode,
    CondClauseSep,
    NilCoalesce,
}

/// A keyed correspondence: `keys[i]` maps to `values[i]`, keys in arrival
/// order.
#[derive(Debug)]
pub struct RecordData {
    pub keys: Vec<Value>,
    pub values: Vec<Value>,
}

#[derive(Debug)]
pub enum ValueData {
    Nil,
    /// The logical Unknown (U) of three-valued logic, optionally carrying the
    /// comparison diagnosis that produced it.
    Unknown(Option<NilDiagnosis>),
    Boolean(bool),
    Scalar(Fraction),
    Text(String),
    Symbol(String),
    Vector(Rc<Vec<Value>>),
    Record(RecordData),
    CodeBlock(Vec<Token>),
}

#[derive(Debug)]
pub struct Value {
    pub data: ValueData,
    pub hint: Interpretation,
    pub absence: Option<AbsenceMetadata>,
}

// ── Mathematical view of values ──────────────────────────────────────────────
pub enum TokenView {
    Number(Seq<char>),
    Str(Seq<char>),
    Symbol(Seq<char>),
    VectorStart,
    VectorEnd,
    LineBreak,
    SafeMode,
    CondClauseSep,
    NilCoalesce,
}

pub open spec fn token_view(t: Token) -> TokenView {
    match t {
        Token::Number(s) => TokenView::Number(s@),
        Token::String(s) => TokenView::Str(s@),
        Token::Symbol(s) => TokenView::Symbol(s@),
        Token::VectorStart => TokenView::VectorStart,
        Token::VectorEnd => TokenView::VectorEnd,
        Token::LineBreak => TokenView::LineBreak,
        Token::SafeMode => TokenView::SafeMode,
        Token::CondClauseSep => TokenView::CondClauseSep,
        Token::NilCoalesce => TokenView::NilCoalesce,
    }
}

pub open spec fn tokens_view(s: Seq<Token>) -> Seq<TokenView> {
    s.map_values(|t: Token| token_view(t))
}

pub struct AbsenceView {
    pub reason: Option<NilReason>,
    pub recoverability: Recoverability,
    pub detail: Option<Seq<char>>,
}

pub open spec fn absence_view(a: Option<AbsenceMetadata>) -> Option<AbsenceView> {
    match a {
        None => None,
        Some(m) => Some(
            AbsenceView {
                reason: m.reason,
                recoverability: m.recoverability,
                detail: match m.detail {
                    None => None,
                    Some(d) => Some(d@),
                },
            },
        ),
    }
}

pub struct DiagnosisView {
    pub origin: Option<Seq<char>>,
    pub agreed_prefix: Option<usize>,
}

pub open spec fn diagnosis_view(d: Option<NilDiagnosis>) -> Option<DiagnosisView> {
    match d {
        None => None,
        Some(n) => Some(
            DiagnosisView {
                origin: match n.origin {
                    None => None,
                    Some(o) => Some(o@),
                },
                agreed_prefix: n.agreed_prefix,
            },
        ),
    }
}

pub enum DataView {
    Nil,
    Unknown(Option<DiagnosisView>),
    Boolean(bool),
    Scalar(Fraction),
    Text(Seq<char>),
    Symbol(Seq<char>),
    Vector(Seq<ValueView>),
    Record(Seq<ValueView>, Seq<ValueView>),
    CodeBlock(Seq<TokenView>),
}

pub struct ValueView {
    pub data: DataView,
    pub hint: Interpretation,
    pub absence: Option<AbsenceView>,
}

pub open spec fn value_view(v: Value) -> ValueView
    decreases v,
{
    let data = match v.data {
        ValueData::Nil => DataView::Nil,
        ValueData::Unknown(d) => DataView::Unknown(diagnosis_view(d)),
        ValueData::Boolean(b) => DataView::Boolean(b),
        ValueData::Scalar(f) => DataView::Scalar(f),
        ValueData::Text(s) => DataView::Text(s@),
        ValueData::Symbol(s) => DataView::Symbol(s@),
        ValueData::Vector(items) => DataView::Vector(values_view((*items)@)),
        ValueData::Record(r) => DataView::Record(values_view(r.keys@), values_view(r.values@)),
        ValueData::CodeBlock(t) => DataView::CodeBlock(tokens_view(t@)),
    };
    ValueView { data, hint: v.hint, absence: absence_view(v.absence) }
}

pub open spec fn values_view(s: Seq<Value>) -> Seq<ValueView>
    decreases s,
{
    if s.len() == 0 {
        Seq::empty()
    } else {
        seq![value_view(s[0])] + values_view(s.drop_first())
    }
}

pub proof fn lemma_values_view(s: Seq<Value>)
    ensures
        values_view(s).len() == s.len(),
        forall|i: int| 0 <= i < s.len() ==> #[trigger] values_view(s)[i] == value_view(s[i]),
    decreases s.len(),
{
    if s.len() > 0 {
        lemma_values_view(s.drop_first());
        assert forall|i: int| 0 <= i < s.len() implies #[trigger] values_view(s)[i] == value_view(
            s[i],
        ) by {
            if i > 0 {
                assert(s.drop_first()[i - 1] == s[i]);
            }
        }
    }
}

/// Two sequences with element-wise equal views have equal views.
pub proof fn lemma_values_view_ext(s: Seq<Value>, t: Seq<Value>)
    requires
        s.len() == t.len(),
        forall|i: int| 0 <= i < s.len() ==> value_view(#[trigger] s[i]) == value_view(t[i]),
    ensures
        values_view(s) == values_view(t),
{
    lemma_values_view(s);
    lemma_values_view(t);
    assert(values_view(s) =~= values_view(t));
}

impl View for Value {
    type V = ValueView;

    open spec fn view(&self) -> ValueView {
        value_view(*self)
    }
}

// ── Equality of values ───────────────────────────────────────────────────────
/// Value equality over views: numbers compare as rationals, text and symbols
/// by their characters, collections element by element, code blocks token by
/// token; NIL equals NIL and U equals U whatever they carry. The
/// interpretation role plays no part.
pub open spec fn view_eq(a: ValueView, b: ValueView) -> bool
    decreases a,
{
    match (a.data, b.data) {
        (DataView::Nil, DataView::Nil) => true,
        (DataView::Unknown(_), DataView::Unknown(_)) => true,
        (DataView::Boolean(x), DataView::Boolean(y)) => x == y,
        (DataView::Scalar(p), DataView::Scalar(q)) => p.same_rational(q),
        (DataView::Text(s), DataView::Text(t)) => s == t,
        (DataView::Symbol(s), DataView::Symbol(t)) => s == t,
        (DataView::Vector(u), DataView::Vector(w)) => views_eq(u, w),
        (DataView::Record(k1, v1), DataView::Record(k2, v2)) => views_eq(k1, k2) && views_eq(v1, v2),
        (DataView::CodeBlock(s), DataView::CodeBlock(t)) => s == t,
        _ => false,
    }
}

/// Element-wise [`view_eq`] of two sequences of the same length.
pub open spec fn views_eq(s: Seq<ValueView>, t: Seq<ValueView>) -> bool
    decreases s,
{
    if s.len() != t.len() {
        false
    } else if s.len() == 0 {
        true
    } else {
        view_eq(s[0], t[0]) && views_eq(s.drop_first(), t.drop_first())
    }
}

/// Value equality is reflexive.
pub proof fn lemma_view_eq_reflexive(a: ValueView)
    ensures
        view_eq(a, a),
    decreases a,
{
    match a.data {
        DataView::Vector(u) => {
            lemma_views_eq_reflexive(u);
        },
        DataView::Record(k, v) => {
            lemma_views_eq_reflexive(k);
            lemma_views_eq_reflexive(v);
        },
        _ => {},
    }
}

pub proof fn lemma_views_eq_reflexive(s: Seq<ValueView>)
    ensures
        views_eq(s, s),
    decreases s,
{
    if s.len() > 0 {
        lemma_view_eq_reflexive(s[0]);
        lemma_views_eq_reflexive(s.drop_first());
    }
}

/// Value equality is symmetric.
pub proof fn lemma_view_eq_symmetric(a: ValueView, b: ValueView)
    ensures
        view_eq(a, b) == view_eq(b, a),
    decreases a,
{
    match (a.data, b.data) {
        (DataView::Vector(u), DataView::Vector(w)) => {
            lemma_views_eq_symmetric(u, w);
        },
        (DataView::Record(k1, v1), DataView::Record(k2, v2)) => {
            lemma_views_eq_symmetric(k1, k2);
            lemma_views_eq_symmetric(v1, v2);
        },
        _ => {},
    }
}

pub proof fn lemma_views_eq_symmetric(s: Seq<ValueView>, t: Seq<ValueView>)
    ensures
        views_eq(s, t) == views_eq(t, s),
    decreases s,
{
    if s.len() == t.len() && s.len() > 0 {
        lemma_view_eq_symmetric(s[0], t[0]);
        lemma_views_eq_symmetric(s.drop_first(), t.drop_first());
    }
}

/// Every number inside the value has a positive denominator, as every
/// value the library builds does.
pub open spec fn view_wf(a: ValueView) -> bool
    decreases a,
{
    match a.data {
        DataView::Scalar(f) => f.den() > 0,
        DataView::Vector(u) => views_wf(u),
        DataView::Record(k, v) => views_wf(k) && views_wf(v),
        _ => true,
    }
}

pub open spec fn views_wf(s: Seq<ValueView>) -> bool
    decreases s,
{
    if s.len() == 0 {
        true
    } else {
        view_wf(s[0]) && views_wf(s.drop_first())
    }
}

proof fn lemma_same_rational_transitive(a: Fraction, b: Fraction, c: Fraction)
    requires
        a.same_rational(b),
        b.same_rational(c),
        b.den() > 0,
    ensures
        a.same_rational(c),
{
    let (an, ad, bn, bd, cn, cd) = (a.num(), a.den(), b.num(), b.den(), c.num(), c.den());
    assert(an * cd == cn * ad) by (nonlinear_arith)
        requires
            an * bd == bn * ad,
            bn * cd == cn * bd,
            bd > 0,
    {
        assert(an * bd * cd == bn * ad * cd);
        assert(bn * cd * ad == cn * bd * ad);
        assert((an * cd) * bd == (cn * ad) * bd);
    }
}

/// Value equality is transitive through a well-formed middle value.
pub proof fn lemma_view_eq_transitive(a: ValueView, b: ValueView, c: ValueView)
    requires
        view_eq(a, b),
        view_eq(b, c),
        view_wf(b),
    ensures
        view_eq(a, c),
    decreases b,
{
    match (a.data, b.data, c.data) {
        (DataView::Scalar(x), DataView::Scalar(y), DataView::Scalar(z)) => {
            lemma_same_rational_transitive(x, y, z);
        },
        (DataView::Vector(u), DataView::Vector(w), DataView::Vector(x)) => {
            lemma_views_eq_transitive(u, w, x);
        },
        (DataView::Record(k1, v1), DataView::Record(k2, v2), DataView::Record(k3, v3)) => {
            lemma_views_eq_transitive(k1, k2, k3);
            lemma_views_eq_transitive(v1, v2, v3);
        },
        _ => {},
    }
}

pub proof fn lemma_views_eq_transitive(s: Seq<ValueView>, t: Seq<ValueView>, u: Seq<ValueView>)
    requires
        views_eq(s, t),
        views_eq(t, u),
        views_wf(t),
    ensures
        views_eq(s, u),
    decreases t,
{
    if t.len() > 0 {
        lemma_view_eq_transitive(s[0], t[0], u[0]);
        lemma_views_eq_transitive(s.drop_first(), t.drop_first(), u.drop_first());
    }
}

/// Value equality (see [`view_eq`]).
pub open spec fn value_eq(a: Value, b: Value) -> bool {
    view_eq(a@, b@)
}

/// Token equality by kind and by characters.
pub open spec fn token_same(a: Token, b: Token) -> bool {
    match (a, b) {
        (Token::Number(x), Token::Number(y)) => x@ == y@,
        (Token::String(x), Token::String(y)) => x@ == y@,
        (Token::Symbol(x), Token::Symbol(y)) => x@ == y@,
        (Token::VectorStart, Token::VectorStart) => true,
        (Token::VectorEnd, Token::VectorEnd) => true,
        (Token::LineBreak, Token::LineBreak) => true,
        (Token::SafeMode, Token::SafeMode) => true,
        (Token::CondClauseSep, Token::CondClauseSep) => true,
        (Token::NilCoalesce, Token::NilCoalesce) => true,
        _ => false,
    }
}

pub open spec fn tokens_same(s: Seq<Token>, t: Seq<Token>) -> bool {
    s.len() == t.len() && forall|i: int| 0 <= i < s.len() ==> token_same(#[trigger] s[i], t[i])
}

pub fn token_equal(a: &Token, b: &Token) -> (r: bool)
    ensures
        r == token_same(*a, *b),
{
    match (a, b) {
        (Token::Number(x), Token::Number(y)) => x.eq(y),
        (Token::String(x), Token::String(y)) => x.eq(y),
        (Token::Symbol(x), Token::Symbol(y)) => x.eq(y),
        (Token::VectorStart, Token::VectorStart) => true,
        (Token::VectorEnd, Token::VectorEnd) => true,
        (Token::LineBreak, Token::LineBreak) => true,
        (Token::SafeMode, Token::SafeMode) => true,
        (Token::CondClauseSep, Token::CondClauseSep) => true,
        (Token::NilCoalesce, Token::NilCoalesce) => true,
        _ => false,
    }
}

pub fn tokens_equal(a: &Vec<Token>, b: &Vec<Token>) -> (r: bool)
    ensures
        r == tokens_same(a@, b@),
{
    if a.len() != b.len() {
        return false;
    }
    let mut i: usize = 0;
    while i < a.len()
        invariant
            a.len() == b.len(),
            0 <= i <= a.len(),
            forall|j: int| 0 <= j < i ==> token_same(#[trigger] a@[j], b@[j]),
        decreases a.len() - i,
    {
        if !token_equal(&a[i], &b[i]) {
            return false;
        }
        i = i + 1;
    }
    true
}

/// `views_eq` is element-wise `view_eq` over sequences of equal length.
pub proof fn lemma_views_eq_pointwise(s: Seq<ValueView>, t: Seq<ValueView>)
    ensures
        views_eq(s, t) <==> (s.len() == t.len() && forall|i: int|
            0 <= i < s.len() ==> view_eq(#[trigger] s[i], t[i])),
    decreases s.len(),
{
    if s.len() == t.len() && s.len() > 0 {
        lemma_views_eq_pointwise(s.drop_first(), t.drop_first());
        if views_eq(s, t) {
            assert forall|i: int| 0 <= i < s.len() implies view_eq(#[trigger] s[i], t[i]) by {
                if i > 0 {
                    assert(s.drop_first()[i - 1] == s[i]);
                    assert(t.drop_first()[i - 1] == t[i]);
                }
            }
        }
        if forall|i: int| 0 <= i < s.len() ==> view_eq(#[trigger] s[i], t[i]) {
            assert forall|i: int| 0 <= i < s.drop_first().len() implies view_eq(
                #[trigger] s.drop_first()[i],
                t.drop_first()[i],
            ) by {
                assert(s.drop_first()[i] == s[i + 1]);
                assert(t.drop_first()[i] == t[i + 1]);
            }
        }
    }
}

/// Two tokens are the same exactly when their views are equal.
pub proof fn lemma_token_same_view(a: Token, b: Token)
    ensures
        token_same(a, b) <==> token_view(a) == token_view(b),
{
    match (a, b) {
        (Token::Number(x), Token::Number(y)) => {},
        (Token::String(x), Token::String(y)) => {},
        (Token::Symbol(x), Token::Symbol(y)) => {},
        _ => {},
    }
}

pub proof fn lemma_tokens_same_view(s: Seq<Token>, t: Seq<Token>)
    ensures
        tokens_same(s, t) <==> tokens_view(s) == tokens_view(t),
{
    assert forall|a: Token, b: Token| #[trigger] token_same(a, b) <==> token_view(a) == token_view(b) by {
        lemma_token_same_view(a, b);
    }
    if tokens_same(s, t) {
        assert(tokens_view(s) =~= tokens_view(t)) by {
            assert forall|i: int| 0 <= i < s.len() implies tokens_view(s)[i] == tokens_view(t)[i] by {
                assert(token_same(s[i], t[i]));
            }
        }
    }
    if tokens_view(s) == tokens_view(t) {
        assert(s.len() == tokens_view(s).len());
        assert(t.len() == tokens_view(t).len());
        assert forall|i: int| 0 <= i < s.len() implies token_same(#[trigger] s[i], t[i]) by {
            assert(tokens_view(s)[i] == tokens_view(t)[i]);
            assert(tokens_view(s)[i] == token_view(s[i]));
            assert(tokens_view(t)[i] == token_view(t[i]));
        }
    }
}

/// `Rc::clone`: a second handle on the same shared vector.
#[verifier::external_body]
pub(crate) fn share_vector(v: &Rc<Vec<Value>>) -> (r: Rc<Vec<Value>>)
    ensures
        r == *v,
{
    Rc::clone(v)
}

/// `Rc::strong_count`: how many handles currently share the vector. It reads
/// the running program's sharing state; the handle `v` itself is one of
/// them, so the count is at least one.
#[verifier::external_body]
pub(crate) fn shared_handle_count(v: &Rc<Vec<Value>>) -> (r: usize)
    ensures
        r >= 1,
{
    Rc::strong_count(v)
}

pub fn copy_string(s: &String) -> (r: String)
    ensures
        r == *s,
{
    s.clone()
}

pub fn copy_token(t: &Token) -> (r: Token)
    ensures
        token_view(r) == token_view(*t),
{
    match t {
        Token::Number(s) => Token::Number(copy_string(s)),
        Token::String(s) => Token::String(copy_string(s)),
        Token::Symbol(s) => Token::Symbol(copy_string(s)),
        Token::VectorStart => Token::VectorStart,
        Token::VectorEnd => Token::VectorEnd,
        Token::LineBreak => Token::LineBreak,
        Token::SafeMode => Token::SafeMode,
        Token::CondClauseSep => Token::CondClauseSep,
        Token::NilCoalesce => Token::NilCoalesce,
    }
}

pub fn copy_tokens(v: &Vec<Token>) -> (r: Vec<Token>)
    ensures
        tokens_view(r@) == tokens_view(v@),
{
    let mut out: Vec<Token> = Vec::new();
    let mut i: usize = 0;
    while i < v.len()
        invariant
            0 <= i <= v.len(),
            out@.len() == i,
            forall|j: int| 0 <= j < i ==> token_view(#[trigger] out@[j]) == token_view(v@[j]),
        decreases v.len() - i,
    {
        out.push(copy_token(&v[i]));
        i = i + 1;
    }
    proof {
        assert(tokens_view(out@) =~= tokens_view(v@));
    }
    out
}

pub fn copy_absence(a: &Option<AbsenceMetadata>) -> (r: Option<AbsenceMetadata>)
    ensures
        absence_view(r) == absence_view(*a),
{
    match a {
        None => None,
        Some(m) => Some(
            AbsenceMetadata {
                reason: m.reason,
                recoverability: m.recoverability,
                detail: match &m.detail {
                    None => None,
                    Some(d) => Some(copy_string(d)),
                },
            },
        ),
    }
}

pub fn copy_diagnosis(d: &Option<NilDiagnosis>) -> (r: Option<NilDiagnosis>)
    ensures
        diagnosis_view(r) == diagnosis_view(*d),
{
    match d {
        None => None,
        Some(n) => Some(
            NilDiagnosis {
                origin: match &n.origin {
                    None => None,
                    Some(o) => Some(copy_string(o)),
                },
                agreed_prefix: n.agreed_prefix,
            },
        ),
    }
}

/// An independent copy of every value in `v`.
pub fn copy_values(v: &Vec<Value>) -> (r: Vec<Value>)
    ensures
        r@.len() == v@.len(),
        forall|j: int| 0 <= j < v@.len() ==> (#[trigger] r@[j])@ == v@[j]@,
        values_view(r@) == values_view(v@),
    decreases v@,
{
    let mut out: Vec<Value> = Vec::new();
    let mut i: usize = 0;
    while i < v.len()
        invariant
            0 <= i <= v.len(),
            out@.len() == i,
            forall|j: int| 0 <= j < i ==> (#[trigger] out@[j])@ == v@[j]@,
        decreases v.len() - i,
    {
        proof {
            assert(decreases_to!(v@ => v@[i as int]));
        }
        out.push(v[i].duplicate());
        i = i + 1;
    }
    proof {
        lemma_values_view_ext(out@, v@);
    }
    out
}

impl Value {
    /// A copy of this value, equal to it in every field. A vector's elements
    /// are shared with the original, not copied.
    pub fn duplicate(&self) -> (r: Value)
        ensures
            r@ == self@,
        decreases *self,
    {
        let data = match &self.data {
            ValueData::Nil => ValueData::Nil,
            ValueData::Unknown(d) => ValueData::Unknown(copy_diagnosis(d)),
            ValueData::Boolean(b) => ValueData::Boolean(*b),
            ValueData::Scalar(f) => ValueData::Scalar(*f),
            ValueData::Text(s) => ValueData::Text(copy_string(s)),
            ValueData::Symbol(s) => ValueData::Symbol(copy_string(s)),
            ValueData::Vector(v) => ValueData::Vector(share_vector(v)),
            ValueData::Record(r) => {
                proof {
                    assert(decreases_to!(*self => self.data));
                    assert(decreases_to!(self.data => *r));
                    assert(decreases_to!(*r => r.keys));
                    assert(decreases_to!(*r => r.values));
                }
                ValueData::Record(
                    RecordData { keys: copy_values(&r.keys), values: copy_values(&r.values) },
                )
            },
            ValueData::CodeBlock(t) => ValueData::CodeBlock(copy_tokens(t)),
        };
        Value { data, hint: self.hint, absence: copy_absence(&self.absence) }
    }
}

/// Truthiness of a value when it is read as a condition: a Boolean is its own
/// truth, a number is true when non-zero, text and collections when
/// non-empty, a symbol or code block always; NIL and U are not true.
pub open spec fn truthy(v: Value) -> bool {
    match v.data {
        ValueData::Nil => false,
        ValueData::Unknown(_) => false,
        ValueData::Boolean(b) => b,
        ValueData::Scalar(f) => !f.is_zero_spec(),
        ValueData::Text(s) => s@.len() > 0,
        ValueData::Symbol(_) => true,
        ValueData::Vector(items) => (*items)@.len() > 0,
        ValueData::Record(r) => r.keys@.len() > 0,
        ValueData::CodeBlock(_) => true,
    }
}

/// The protocol name of a value's truth reading, for a value that carries the
/// truth-value role or is U.
pub open spec fn truth_value_of(v: Value) -> Option<&'static str> {
    match v.data {
        ValueData::Unknown(_) => Some("unknown"),
        ValueData::Boolean(b) => if v.hint == Interpretation::TruthValue {
            if b {
                Some("true")
            } else {
                Some("false")
            }
        } else {
            None
        },
        _ => None,
    }
}

impl Value {
    /// The literal NIL: an operational absence with no reason.
    pub fn nil() -> (r: Value)
        ensures
            r.data is Nil,
            r.hint == Interpretation::Nil,
            r.absence == Some(
                AbsenceMetadata {
                    reason: None,
                    recoverability: Recoverability::Recoverable,
                    detail: None,
                },
            ),
    {
        Value {
            data: ValueData::Nil,
            hint: Interpretation::Nil,
            absence: Some(
                AbsenceMetadata {
                    reason: None,
                    recoverability: Recoverability::Recoverable,
                    detail: None,
                },
            ),
        }
    }

    /// An operational NIL carrying `reason`.
    pub fn nil_with_reason(reason: NilReason, recoverability: Recoverability) -> (r: Value)
        ensures
            r.data is Nil,
            r.hint == Interpretation::Nil,
            r.absence == Some(AbsenceMetadata { reason: Some(reason), recoverability, detail: None }),
    {
        Value {
            data: ValueData::Nil,
            hint: Interpretation::Nil,
            absence: Some(AbsenceMetadata { reason: Some(reason), recoverability, detail: None }),
        }
    }

    /// An operational NIL carrying `reason` whose recoverability is unknown.
    pub fn nil_with_reason_unknown(reason: NilReason) -> (r: Value)
        ensures
            r.data is Nil,
            r.hint == Interpretation::Nil,
            r.absence == Some(
                AbsenceMetadata {
                    reason: Some(reason),
                    recoverability: Recoverability::Unknown,
                    detail: None,
                },
            ),
    {
        Self::nil_with_reason(reason, Recoverability::Unknown)
    }

    /// The logical Unknown with no diagnosis.
    pub fn unknown() -> (r: Value)
        ensures
            r.data == ValueData::Unknown(None),
            r.hint == Interpretation::TruthValue,
            r.absence is None,
    {
        Value { data: ValueData::Unknown(None), hint: Interpretation::TruthValue, absence: None }
    }

    /// The logical Unknown produced by a comparison that agreed on `agreed_prefix`
    /// leading terms before its budget ran out.
    pub fn unknown_with_agreed_prefix(origin: Option<&str>, agreed_prefix: usize) -> (r: Value)
        ensures
            r.data matches ValueData::Unknown(Some(d)) && d.agreed_prefix == Some(agreed_prefix)
                && (match origin {
                None => d.origin is None,
                Some(o) => d.origin matches Some(s) && s@ == o@,
            }),
            r.hint == Interpretation::TruthValue,
            r.absence is None,
    {
        let origin = match origin {
            None => None,
            Some(o) => Some(String::from_str(o)),
        };
        Value {
            data: ValueData::Unknown(Some(NilDiagnosis { origin, agreed_prefix: Some(agreed_prefix) })),
            hint: Interpretation::TruthValue,
            absence: None,
        }
    }

    pub fn from_bool(b: bool) -> (r: Value)
        ensures
            r.data == ValueData::Boolean(b),
            r.hint == Interpretation::Auto,
            r.absence is None,
    {
        Value { data: ValueData::Boolean(b), hint: Interpretation::Auto, absence: None }
    }

    pub fn from_fraction(f: Fraction) -> (r: Value)
        ensures
            r.data == ValueData::Scalar(f),
            r.hint == Interpretation::Auto,
            r.absence is None,
    {
        Value { data: ValueData::Scalar(f), hint: Interpretation::Auto, absence: None }
    }

    /// The integer `n` as a number.
    pub fn from_int(n: i64) -> (r: Value)
        requires
            n > i64::MIN,
        ensures
            r.data matches ValueData::Scalar(f) && f.num() == n && f.den() == 1,
            r.hint == Interpretation::Auto,
            r.absence is None,
    {
        let f = Fraction::from_int(n).unwrap();
        Self::from_fraction(f)
    }

    pub fn from_string(s: &str) -> (r: Value)
        ensures
            r.data matches ValueData::Text(t) && t@ == s@,
            r.hint == Interpretation::Text,
            r.absence is None,
    {
        Value { data: ValueData::Text(String::from_str(s)), hint: Interpretation::Text, absence: None }
    }

    pub fn from_symbol(s: &str) -> (r: Value)
        ensures
            r.data matches ValueData::Symbol(t) && t@ == s@,
            r.hint == Interpretation::Auto,
            r.absence is None,
    {
        Value { data: ValueData::Symbol(String::from_str(s)), hint: Interpretation::Auto, absence: None }
    }

    /// A vector owning `items`.
    pub fn from_vector(items: Vec<Value>) -> (r: Value)
        ensures
            r.data matches ValueData::Vector(v) && (*v)@ == items@,
            r.hint == Interpretation::Auto,
            r.absence is None,
    {
        Value { data: ValueData::Vector(Rc::new(items)), hint: Interpretation::Auto, absence: None }
    }

    /// A vector owning `items` (the same as [`Value::from_vector`]).
    pub fn from_children(items: Vec<Value>) -> (r: Value)
        ensures
            r.data matches ValueData::Vector(v) && (*v)@ == items@,
            r.hint == Interpretation::Auto,
            r.absence is None,
    {
        Self::from_vector(items)
    }

    /// A vector over an already shared element list.
    pub fn from_shared_vector(items: Rc<Vec<Value>>) -> (r: Value)
        ensures
            r.data == ValueData::Vector(items),
            r.hint == Interpretation::Auto,
            r.absence is None,
    {
        Value { data: ValueData::Vector(items), hint: Interpretation::Auto, absence: None }
    }

    pub fn from_record(record: RecordData) -> (r: Value)
        ensures
            r.data == ValueData::Record(record),
            r.hint == Interpretation::Auto,
            r.absence is None,
    {
        Value { data: ValueData::Record(record), hint: Interpretation::Auto, absence: None }
    }

    pub fn from_code_block(tokens: Vec<Token>) -> (r: Value)
        ensures
            r.data == ValueData::CodeBlock(tokens),
            r.hint == Interpretation::Auto,
            r.absence is None,
    {
        Value { data: ValueData::CodeBlock(tokens), hint: Interpretation::Auto, absence: None }
    }

    /// This value with its interpretation role replaced by `role`.
    pub fn with_role(self, role: Interpretation) -> (r: Value)
        ensures
            r.data == self.data,
            r.absence == self.absence,
            r.hint == role,
    {
        Value { data: self.data, hint: role, absence: self.absence }
    }

    pub fn is_nil(&self) -> (r: bool)
        ensures
            r == (self.data is Nil),
    {
        matches!(self.data, ValueData::Nil)
    }

    /// Every NIL is an operational absence; U is not.
    pub fn is_operational_nil(&self) -> (r: bool)
        ensures
            r == (self.data is Nil),
    {
        self.is_nil()
    }

    pub fn is_absent(&self) -> (r: bool)
        ensures
            r == (self.data is Nil),
    {
        self.is_nil()
    }

    pub fn is_unknown(&self) -> (r: bool)
        ensures
            r == (self.data is Unknown),
    {
        matches!(self.data, ValueData::Unknown(_))
    }

    pub fn is_code_block(&self) -> (r: bool)
        ensures
            r == (self.data is CodeBlock),
    {
        matches!(self.data, ValueData::CodeBlock(_))
    }

    pub fn is_truthy(&self) -> (r: bool)
        ensures
            r == truthy(*self),
    {
        match &self.data {
            ValueData::Nil => false,
            ValueData::Unknown(_) => false,
            ValueData::Boolean(b) => *b,
            ValueData::Scalar(f) => !f.is_zero(),
            ValueData::Text(s) => s.as_str().unicode_len() > 0,
            ValueData::Symbol(_) => true,
            ValueData::Vector(items) => items.len() > 0,
            ValueData::Record(r) => r.keys.len() > 0,
            ValueData::CodeBlock(_) => true,
        }
    }

    /// A Boolean carrying the truth-value role, or U.
    pub fn is_truth_value(&self) -> (r: bool)
        ensures
            r == (truth_value_of(*self) is Some),
    {
        match &self.data {
            ValueData::Unknown(_) => true,
            ValueData::Boolean(_) => self.hint == Interpretation::TruthValue,
            _ => false,
        }
    }

    /// The protocol name of this value's truth reading.
    pub fn truth_value(&self) -> (r: Option<&'static str>)
        ensures
            r == truth_value_of(*self),
    {
        match &self.data {
            ValueData::Unknown(_) => Some("unknown"),
            ValueData::Boolean(b) => if self.hint == Interpretation::TruthValue {
                if *b {
                    Some("true")
                } else {
                    Some("false")
                }
            } else {
                None
            },
            _ => None,
        }
    }

    /// The reason an operational NIL carries.
    pub fn nil_reason(&self) -> (r: Option<NilReason>)
        ensures
            r == (match self.data {
                ValueData::Nil => match self.absence {
                    Some(m) => m.reason,
                    None => None,
                },
                _ => None,
            }),
    {
        match &self.data {
            ValueData::Nil => match &self.absence {
                Some(m) => m.reason,
                None => None,
            },
            _ => None,
        }
    }

    /// The absence metadata of an operational NIL; `None` for every other value.
    pub fn absence_metadata(&self) -> (r: Option<&AbsenceMetadata>)
        ensures
            r == (match self.data {
                ValueData::Nil => match self.absence {
                    Some(m) => Some(&m),
                    None => None,
                },
                _ => None,
            }),
    {
        match &self.data {
            ValueData::Nil => match &self.absence {
                Some(m) => Some(m),
                None => None,
            },
            _ => None,
        }
    }

    /// The comparison diagnosis a U carries.
    pub fn nil_diagnosis(&self) -> (r: Option<&NilDiagnosis>)
        ensures
            r == (match self.data {
                ValueData::Unknown(Some(d)) => Some(&d),
                _ => None,
            }),
    {
        match &self.data {
            ValueData::Unknown(Some(d)) => Some(d),
            _ => None,
        }
    }

    pub fn as_vector(&self) -> (r: Option<&Vec<Value>>)
        ensures
            r == (match self.data {
                ValueData::Vector(v) => Some(&*v),
                _ => None,
            }),
    {
        match &self.data {
            ValueData::Vector(v) => Some(&**v),
            _ => None,
        }
    }

    pub fn as_record(&self) -> (r: Option<&RecordData>)
        ensures
            r == (match self.data {
                ValueData::Record(rec) => Some(&rec),
                _ => None,
            }),
    {
        match &self.data {
            ValueData::Record(rec) => Some(rec),
            _ => None,
        }
    }

    pub fn as_scalar(&self) -> (r: Option<Fraction>)
        ensures
            r == (match self.data {
                ValueData::Scalar(f) => Some(f),
                _ => None,
            }),
    {
        match &self.data {
            ValueData::Scalar(f) => Some(*f),
            _ => None,
        }
    }

    /// The integer a whole-number scalar holds.
    pub fn as_i64(&self) -> (r: Option<i64>)
        ensures
            r == (match self.data {
                ValueData::Scalar(f) => if f.den() == 1 {
                    Some(f.num() as i64)
                } else {
                    None
                },
                _ => None,
            }),
    {
        match &self.data {
            ValueData::Scalar(f) => if f.is_integer() {
                Some(f.numerator())
            } else {
                None
            },
            _ => None,
        }
    }

    pub fn as_text(&self) -> (r: Option<&str>)
        ensures
            r matches Some(t) ==> self.data matches ValueData::Text(s) && t@ == s@,
            r is None <==> !(self.data is Text),
    {
        match &self.data {
            ValueData::Text(s) => Some(s.as_str()),
            _ => None,
        }
    }
}

/// Exact value equality (see [`value_eq`]).
pub fn values_equal(a: &Value, b: &Value) -> (r: bool)
    ensures
        r == value_eq(*a, *b),
    decreases *a,
{
    match (&a.data, &b.data) {
        (ValueData::Nil, ValueData::Nil) => true,
        (ValueData::Unknown(_), ValueData::Unknown(_)) => true,
        (ValueData::Boolean(x), ValueData::Boolean(y)) => *x == *y,
        (ValueData::Scalar(p), ValueData::Scalar(q)) => p.eq_value(q),
        (ValueData::Text(s), ValueData::Text(t)) => s.eq(t),
        (ValueData::Symbol(s), ValueData::Symbol(t)) => s.eq(t),
        (ValueData::Vector(u), ValueData::Vector(w)) => {
            proof {
                assert(decreases_to!(*a => (**u)@));
            }
            seq_values_equal(&**u, &**w)
        },
        (ValueData::Record(r), ValueData::Record(q)) => {
            proof {
                assert(decreases_to!(*a => r.keys@));
                assert(decreases_to!(*a => r.values@));
            }
            seq_values_equal(&r.keys, &q.keys) && seq_values_equal(&r.values, &q.values)
        },
        (ValueData::CodeBlock(s), ValueData::CodeBlock(t)) => {
            proof {
                lemma_tokens_same_view(s@, t@);
            }
            tokens_equal(s, t)
        },
        (ValueData::Nil, _) | (ValueData::Unknown(_), _) | (ValueData::Boolean(_), _) | (
            ValueData::Scalar(_),
            _,
        ) | (ValueData::Text(_), _) | (ValueData::Symbol(_), _) | (ValueData::Vector(_), _) | (
            ValueData::Record(_),
            _,
        ) | (ValueData::CodeBlock(_), _) => false,
    }
}

/// The name of a value's domain, as diagnostics report it.
pub open spec fn domain_of(d: DataView) -> &'static str {
    match d {
        DataView::Nil => "nil",
        DataView::Unknown(_) => "unknown",
        DataView::Boolean(_) => "boolean",
        DataView::Scalar(_) => "number",
        DataView::Text(_) => "string",
        DataView::Symbol(_) => "symbol",
        DataView::Vector(_) => "vector",
        DataView::Record(_, _) => "record",
        DataView::CodeBlock(_) => "code block",
    }
}

impl Value {
    pub fn domain_name(&self) -> (r: &'static str)
        ensures
            r == domain_of(self@.data),
    {
        match &self.data {
            ValueData::Nil => "nil",
            ValueData::Unknown(_) => "unknown",
            ValueData::Boolean(_) => "boolean",
            ValueData::Scalar(_) => "number",
            ValueData::Text(_) => "string",
            ValueData::Symbol(_) => "symbol",
            ValueData::Vector(_) => "vector",
            ValueData::Record(_) => "record",
            ValueData::CodeBlock(_) => "code block",
        }
    }
}

/// The elements of a vector, by view.
pub open spec fn vector_items(v: ValueView) -> Option<Seq<ValueView>> {
    match v.data {
        DataView::Vector(u) => Some(u),
        _ => None,
    }
}

/// Element-wise exact equality of two value lists.
pub fn seq_values_equal(a: &Vec<Value>, b: &Vec<Value>) -> (r: bool)
    ensures
        r == views_eq(values_view(a@), values_view(b@)),
    decreases a@,
{
    proof {
        lemma_views_eq_pointwise(values_view(a@), values_view(b@));
        lemma_values_view(a@);
        lemma_values_view(b@);
    }
    if a.len() != b.len() {
        return false;
    }
    let mut i: usize = 0;
    while i < a.len()
        invariant
            a.len() == b.len(),
            0 <= i <= a.len(),
            forall|j: int| 0 <= j < i ==> value_eq(#[trigger] a@[j], b@[j]),
        decreases a.len() - i,
    {
        proof {
            assert(decreases_to!(a@ => a@[i as int]));
        }
        if !values_equal(&a[i], &b[i]) {
            proof {
                lemma_views_eq_pointwise(values_view(a@), values_view(b@));
                lemma_values_view(a@);
                lemma_values_view(b@);
                assert(values_view(a@)[i as int] == value_view(a@[i as int]));
                assert(values_view(b@)[i as int] == value_view(b@[i as int]));
                assert(!view_eq(values_view(a@)[i as int], values_view(b@)[i as int]));
            }
            return false;
        }
        i = i + 1;
    }
    proof {
        assert forall|j: int| 0 <= j < values_view(a@).len() implies view_eq(
            #[trigger] values_view(a@)[j],
            values_view(b@)[j],
        ) by {
            assert(value_eq(a@[j], b@[j]));
        }
    }
    true
}

} // verus!
