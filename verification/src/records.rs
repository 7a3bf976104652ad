//! Records: a keyed correspondence whose keys keep the order they arrived in.
//! A key is any value; two keys are the same key when they are equal values.
//! A record never holds a key twice, and every operation answers a new record.
use crate::value::{
    copy_values, lemma_values_view, lemma_view_eq_reflexive, lemma_view_eq_symmetric,
    lemma_view_eq_transitive, values_equal, values_view, view_eq, view_wf, RecordData, Value,
    ValueView,
};
use vstd::prelude::*;

verus! {

// ── The model ────────────────────────────────────────────────────────────────
/// `k` equals none of `ks`.
pub open spec fn key_absent(ks: Seq<ValueView>, k: ValueView) -> bool {
    forall|i: int| 0 <= i < ks.len() ==> !view_eq(#[trigger] ks[i], k)
}

/// `p` is the first position of `ks` that holds a key equal to `k`.
pub open spec fn first_match(ks: Seq<ValueView>, k: ValueView, p: int) -> bool {
    &&& 0 <= p < ks.len()
    &&& view_eq(ks[p], k)
    &&& forall|i: int| 0 <= i < p ==> !view_eq(#[trigger] ks[i], k)
}

/// The position of key `k` in `ks`, or -1 when it is absent.
pub open spec fn key_index(ks: Seq<ValueView>, k: ValueView) -> int {
    if exists|p: int| first_match(ks, k, p) {
        choose|p: int| first_match(ks, k, p)
    } else {
        -1
    }
}

/// No key occurs twice.
pub open spec fn keys_distinct(ks: Seq<ValueView>) -> bool {
    forall|i: int, j: int| 0 <= i < j < ks.len() ==> !view_eq(#[trigger] ks[i], #[trigger] ks[j])
}

/// A well-formed record: one value per key, no key twice.
pub open spec fn rec_wf(ks: Seq<ValueView>, vs: Seq<ValueView>) -> bool {
    ks.len() == vs.len() && keys_distinct(ks)
}

/// What a lookup of `k` answers.
pub open spec fn rec_get(ks: Seq<ValueView>, vs: Seq<ValueView>, k: ValueView) -> Option<ValueView> {
    let p = key_index(ks, k);
    if 0 <= p < vs.len() {
        Some(vs[p])
    } else {
        None
    }
}

/// The record with `k` set to `v`: in place when the key is present,
/// appended otherwise.
pub open spec fn rec_with(ks: Seq<ValueView>, vs: Seq<ValueView>, k: ValueView, v: ValueView) -> (
    Seq<ValueView>,
    Seq<ValueView>,
) {
    let p = key_index(ks, k);
    if p >= 0 {
        (ks, if p < vs.len() { vs.update(p, v) } else { vs })
    } else {
        (ks.push(k), vs.push(v))
    }
}

/// The record without key `k`, or `None` when it does not hold it.
pub open spec fn rec_without(ks: Seq<ValueView>, vs: Seq<ValueView>, k: ValueView) -> Option<
    (Seq<ValueView>, Seq<ValueView>),
> {
    let p = key_index(ks, k);
    if p >= 0 {
        Some((ks.remove(p), if p < vs.len() { vs.remove(p) } else { vs }))
    } else {
        None
    }
}

/// The first record with the first `n` pairs of the second set on it in
/// turn.
pub open spec fn rec_merge_upto(
    ks: Seq<ValueView>,
    vs: Seq<ValueView>,
    ks2: Seq<ValueView>,
    vs2: Seq<ValueView>,
    n: nat,
) -> (Seq<ValueView>, Seq<ValueView>)
    decreases n,
{
    if n == 0 {
        (ks, vs)
    } else {
        let (a, b) = rec_merge_upto(ks, vs, ks2, vs2, (n - 1) as nat);
        rec_with(a, b, ks2[n - 1], vs2[n - 1])
    }
}

/// The right-biased union: every pair of the second record set in turn on
/// the first.
pub open spec fn rec_merge(
    ks: Seq<ValueView>,
    vs: Seq<ValueView>,
    ks2: Seq<ValueView>,
    vs2: Seq<ValueView>,
) -> (Seq<ValueView>, Seq<ValueView>) {
    let n = if ks2.len() <= vs2.len() {
        ks2.len()
    } else {
        vs2.len()
    };
    rec_merge_upto(ks, vs, ks2, vs2, n)
}

// ── Facts about the model ────────────────────────────────────────────────────
proof fn lemma_first_match_unique(ks: Seq<ValueView>, k: ValueView, p: int, q: int)
    requires
        first_match(ks, k, p),
        first_match(ks, k, q),
    ensures
        p == q,
{
    if p < q {
        assert(!view_eq(ks[p], k));
    } else if q < p {
        assert(!view_eq(ks[q], k));
    }
}

proof fn lemma_first_match_exists(ks: Seq<ValueView>, k: ValueView, i: int)
    requires
        0 <= i < ks.len(),
        view_eq(ks[i], k),
    ensures
        exists|p: int| first_match(ks, k, p),
    decreases i,
{
    if forall|j: int| 0 <= j < i ==> !view_eq(#[trigger] ks[j], k) {
        assert(first_match(ks, k, i));
    } else {
        let j = choose|j: int| 0 <= j < i && view_eq(#[trigger] ks[j], k);
        lemma_first_match_exists(ks, k, j);
    }
}

/// `key_index` is the first matching position, and -1 exactly when the key
/// is absent.
pub proof fn lemma_key_index(ks: Seq<ValueView>, k: ValueView)
    ensures
        key_index(ks, k) >= -1,
        key_index(ks, k) == -1 <==> key_absent(ks, k),
        key_index(ks, k) >= 0 ==> first_match(ks, k, key_index(ks, k)),
        forall|p: int| first_match(ks, k, p) ==> key_index(ks, k) == p,
{
    if exists|p: int| first_match(ks, k, p) {
        let p = choose|p: int| first_match(ks, k, p);
        assert forall|q: int| first_match(ks, k, q) implies key_index(ks, k) == q by {
            lemma_first_match_unique(ks, k, p, q);
        }
        assert(!key_absent(ks, k)) by {
            assert(view_eq(ks[p], k));
        }
    } else {
        assert forall|i: int| 0 <= i < ks.len() implies !view_eq(#[trigger] ks[i], k) by {
            if view_eq(ks[i], k) {
                lemma_first_match_exists(ks, k, i);
            }
        }
    }
}

/// Setting a key keeps a record well formed.
pub proof fn lemma_rec_with_wf(ks: Seq<ValueView>, vs: Seq<ValueView>, k: ValueView, v: ValueView)
    requires
        rec_wf(ks, vs),
    ensures
        rec_wf(rec_with(ks, vs, k, v).0, rec_with(ks, vs, k, v).1),
{
    lemma_key_index(ks, k);
    if key_index(ks, k) < 0 {
        let nk = ks.push(k);
        assert forall|i: int, j: int| 0 <= i < j < nk.len() implies !view_eq(
            #[trigger] nk[i],
            #[trigger] nk[j],
        ) by {
            if j == ks.len() {
                assert(!view_eq(ks[i], k));
            } else {
                assert(!view_eq(ks[i], ks[j]));
            }
        }
    }
}

/// Removing a key keeps a record well formed.
pub proof fn lemma_rec_without_wf(ks: Seq<ValueView>, vs: Seq<ValueView>, k: ValueView)
    requires
        rec_wf(ks, vs),
        rec_without(ks, vs, k) is Some,
    ensures
        rec_wf(rec_without(ks, vs, k).unwrap().0, rec_without(ks, vs, k).unwrap().1),
{
    lemma_key_index(ks, k);
    let p = key_index(ks, k);
    let nk = ks.remove(p);
    assert forall|i: int, j: int| 0 <= i < j < nk.len() implies !view_eq(
        #[trigger] nk[i],
        #[trigger] nk[j],
    ) by {
        let oi = if i < p {
            i
        } else {
            i + 1
        };
        let oj = if j < p {
            j
        } else {
            j + 1
        };
        assert(nk[i] == ks[oi]);
        assert(nk[j] == ks[oj]);
        assert(!view_eq(ks[oi], ks[oj]));
    }
}

/// A merge onto a well-formed record is well formed.
pub proof fn lemma_rec_merge_wf(
    ks: Seq<ValueView>,
    vs: Seq<ValueView>,
    ks2: Seq<ValueView>,
    vs2: Seq<ValueView>,
    n: nat,
)
    requires
        rec_wf(ks, vs),
    ensures
        rec_wf(rec_merge_upto(ks, vs, ks2, vs2, n).0, rec_merge_upto(ks, vs, ks2, vs2, n).1),
    decreases n,
{
    if n > 0 {
        lemma_rec_merge_wf(ks, vs, ks2, vs2, (n - 1) as nat);
        let (a, b) = rec_merge_upto(ks, vs, ks2, vs2, (n - 1) as nat);
        lemma_rec_with_wf(a, b, ks2[n - 1], vs2[n - 1]);
    }
}

/// A sequence of values whose views are, position by position, `vs` has the
/// view `vs`.
pub proof fn lemma_values_view_is(s: Seq<Value>, vs: Seq<ValueView>)
    requires
        s.len() == vs.len(),
        forall|i: int| 0 <= i < s.len() ==> (#[trigger] s[i])@ == vs[i],
    ensures
        values_view(s) == vs,
{
    lemma_values_view(s);
    assert(values_view(s) =~= vs);
}

// ── Laws ─────────────────────────────────────────────────────────────────────
/// A lookup right after setting a key answers the value just set.
pub proof fn law_get_after_with(ks: Seq<ValueView>, vs: Seq<ValueView>, k: ValueView, v: ValueView)
    requires
        rec_wf(ks, vs),
    ensures
        rec_get(rec_with(ks, vs, k, v).0, rec_with(ks, vs, k, v).1, k) == Some(v),
{
    lemma_key_index(ks, k);
    let (nk, nv) = rec_with(ks, vs, k, v);
    lemma_key_index(nk, k);
    if key_index(ks, k) >= 0 {
        assert(first_match(nk, k, key_index(ks, k)));
    } else {
        lemma_view_eq_reflexive(k);
        assert(first_match(nk, k, ks.len() as int));
    }
}

/// Every key of the record is a well-formed value.
pub open spec fn keys_wf(ks: Seq<ValueView>) -> bool {
    forall|i: int| 0 <= i < ks.len() ==> view_wf(#[trigger] ks[i])
}

/// Setting a key leaves the lookup of every other key unchanged.
pub proof fn law_with_keeps_other_keys(
    ks: Seq<ValueView>,
    vs: Seq<ValueView>,
    k: ValueView,
    v: ValueView,
    other: ValueView,
)
    requires
        rec_wf(ks, vs),
        keys_wf(ks),
        !view_eq(k, other),
    ensures
        rec_get(rec_with(ks, vs, k, v).0, rec_with(ks, vs, k, v).1, other) == rec_get(ks, vs, other),
{
    lemma_key_index(ks, k);
    lemma_key_index(ks, other);
    let (nk, nv) = rec_with(ks, vs, k, v);
    lemma_key_index(nk, other);
    let p = key_index(ks, k);
    let q = key_index(ks, other);
    if q >= 0 {
        assert(first_match(nk, other, q));
        if p == q {
            lemma_view_eq_symmetric(ks[p], k);
            lemma_view_eq_transitive(k, ks[p], other);
            assert(false);
        }
    } else {
        if p < 0 {
            assert forall|i: int| 0 <= i < nk.len() implies !view_eq(#[trigger] nk[i], other) by {
                if i == ks.len() {
                    assert(nk[i] == k);
                }
            }
        }
        assert(key_absent(nk, other));
    }
}

/// After a key is removed, a lookup of it finds nothing.
pub proof fn law_without_removes(ks: Seq<ValueView>, vs: Seq<ValueView>, k: ValueView)
    requires
        rec_wf(ks, vs),
        view_wf(k),
        rec_without(ks, vs, k) is Some,
    ensures
        rec_get(rec_without(ks, vs, k).unwrap().0, rec_without(ks, vs, k).unwrap().1, k) is None,
{
    lemma_key_index(ks, k);
    let p = key_index(ks, k);
    let nk = ks.remove(p);
    lemma_key_index(nk, k);
    assert forall|i: int| 0 <= i < nk.len() implies !view_eq(#[trigger] nk[i], k) by {
        let oi = if i < p {
            i
        } else {
            i + 1
        };
        assert(nk[i] == ks[oi]);
        if view_eq(ks[oi], k) {
            lemma_view_eq_symmetric(ks[p], k);
            lemma_view_eq_transitive(ks[oi], k, ks[p]);
            if oi < p {
                assert(!view_eq(ks[oi], ks[p]));
            } else {
                assert(!view_eq(ks[p], ks[oi]));
                lemma_view_eq_symmetric(ks[p], ks[oi]);
            }
        }
    }
}

// ── Executable record operations ─────────────────────────────────────────────
/// Why a record could not be built from a key vector and a value vector.
/// The key at position `second` is the first that repeats an earlier key,
/// and `first` is the earliest position it repeats.
pub open spec fn first_repeat(ks: Seq<ValueView>, first: int, second: int) -> bool {
    &&& 0 <= first < second < ks.len()
    &&& view_eq(ks[first], ks[second])
    &&& keys_distinct(ks.take(second))
    &&& forall|i: int| 0 <= i < first ==> !view_eq(#[trigger] ks[i], ks[second])
}

#[derive(Debug, PartialEq, Eq, Structural)]
pub enum RecordBuildError {
    LengthMismatch { keys: usize, values: usize },
    DuplicateKey { first: usize, second: usize },
}

/// The first position of `keys` holding a key equal to `key`.
pub fn find_key(keys: &Vec<Value>, key: &Value) -> (r: Option<usize>)
    ensures
        match r {
            Some(p) => first_match(values_view(keys@), key@, p as int),
            None => key_absent(values_view(keys@), key@),
        },
{
    proof {
        lemma_values_view(keys@);
    }
    let mut i: usize = 0;
    while i < keys.len()
        invariant
            0 <= i <= keys.len(),
            values_view(keys@).len() == keys@.len(),
            forall|j: int| 0 <= j < keys@.len() ==> #[trigger] values_view(keys@)[j] == keys@[j]@,
            forall|j: int| 0 <= j < i ==> !view_eq(#[trigger] values_view(keys@)[j], key@),
        decreases keys.len() - i,
    {
        if values_equal(&keys[i], key) {
            proof {
                assert(values_view(keys@)[i as int] == keys@[i as int]@);
            }
            return Some(i);
        }
        i = i + 1;
    }
    None
}

impl RecordData {
    /// The keys, by view, in arrival order.
    pub open spec fn key_views(&self) -> Seq<ValueView> {
        values_view(self.keys@)
    }

    /// The values, by view, position by position with the keys.
    pub open spec fn value_views(&self) -> Seq<ValueView> {
        values_view(self.values@)
    }

    pub open spec fn wf(&self) -> bool {
        rec_wf(self.key_views(), self.value_views())
    }

    /// A record from a key vector and a value vector of the same length with
    /// no key twice. A length difference is reported first; otherwise the
    /// first key that repeats an earlier one is reported with that earlier
    /// position.
    pub fn new(keys: Vec<Value>, values: Vec<Value>) -> (r: Result<RecordData, RecordBuildError>)
        ensures
            keys@.len() != values@.len() ==> (r matches Err(
                RecordBuildError::LengthMismatch { keys: a, values: b },
            ) && a == keys@.len() && b == values@.len()),
            keys@.len() == values@.len() ==> (r is Ok <==> keys_distinct(values_view(keys@))),
            r matches Err(RecordBuildError::LengthMismatch { .. }) ==> keys@.len() != values@.len(),
            r matches Ok(rec) ==> rec.keys@ == keys@ && rec.values@ == values@ && rec.wf(),
            r matches Err(RecordBuildError::DuplicateKey { first, second }) ==> {
                let ks = values_view(keys@);
                &&& first < second < ks.len()
                &&& view_eq(ks[first as int], ks[second as int])
                &&& forall|i: int| 0 <= i < first ==> !view_eq(#[trigger] ks[i], ks[second as int])
                &&& keys_distinct(ks.take(second as int))
                &&& forall|i: int, j: int|
                    0 <= i < j < second ==> !view_eq(#[trigger] ks[i], #[trigger] ks[j])
            },
    {
        if keys.len() != values.len() {
            return Err(RecordBuildError::LengthMismatch { keys: keys.len(), values: values.len() });
        }
        proof {
            lemma_values_view(keys@);
            lemma_values_view(values@);
        }
        let ghost ks = values_view(keys@);
        let mut j: usize = 0;
        while j < keys.len()
            invariant
                0 <= j <= keys.len(),
                keys@.len() == values@.len(),
                ks == values_view(keys@),
                ks.len() == keys@.len(),
                forall|m: int| 0 <= m < keys@.len() ==> #[trigger] ks[m] == keys@[m]@,
                forall|a: int, b: int| 0 <= a < b < j ==> !view_eq(#[trigger] ks[a], #[trigger] ks[b]),
            decreases keys.len() - j,
        {
            let mut i: usize = 0;
            while i < j
                invariant
                    0 <= i <= j < keys.len(),
                    keys@.len() == values@.len(),
                    ks == values_view(keys@),
                    ks.len() == keys@.len(),
                    forall|m: int| 0 <= m < keys@.len() ==> #[trigger] ks[m] == keys@[m]@,
                    forall|a: int, b: int|
                        0 <= a < b < j ==> !view_eq(#[trigger] ks[a], #[trigger] ks[b]),
                    forall|a: int| 0 <= a < i ==> !view_eq(#[trigger] ks[a], ks[j as int]),
                decreases j - i,
            {
                if values_equal(&keys[i], &keys[j]) {
                    proof {
                        assert(ks[i as int] == keys@[i as int]@);
                        assert(ks[j as int] == keys@[j as int]@);
                        assert forall|a: int, b: int|
                            0 <= a < b < ks.take(j as int).len() implies !view_eq(
                            #[trigger] ks.take(j as int)[a],
                            #[trigger] ks.take(j as int)[b],
                        ) by {
                            assert(!view_eq(ks[a], ks[b]));
                        }
                    }
                    return Err(RecordBuildError::DuplicateKey { first: i, second: j });
                }
                i = i + 1;
            }
            proof {
                assert forall|a: int, b: int| 0 <= a < b < j + 1 implies !view_eq(
                    #[trigger] ks[a],
                    #[trigger] ks[b],
                ) by {
                    if b < j {
                    } else {
                        assert(!view_eq(ks[a], ks[j as int]));
                    }
                }
            }
            j = j + 1;
        }
        Ok(RecordData { keys, values })
    }

    /// The value under `key`, if the record holds it.
    pub fn get(&self, key: &Value) -> (r: Option<&Value>)
        ensures
            r matches Some(v) ==> rec_get(self.key_views(), self.value_views(), key@) == Some(v@),
            r is None ==> rec_get(self.key_views(), self.value_views(), key@) is None,
    {
        proof {
            lemma_key_index(self.key_views(), key@);
            lemma_values_view(self.values@);
        }
        match find_key(&self.keys, key) {
            Some(p) => if p < self.values.len() {
                Some(&self.values[p])
            } else {
                None
            },
            None => None,
        }
    }

    /// Whether the record holds `key`.
    pub fn has(&self, key: &Value) -> (r: bool)
        ensures
            r == (key_index(self.key_views(), key@) >= 0),
    {
        proof {
            lemma_key_index(self.key_views(), key@);
        }
        find_key(&self.keys, key).is_some()
    }

    /// A new record with `key` set to `value`.
    pub fn with(&self, key: Value, value: Value) -> (r: RecordData)
        ensures
            self.wf() ==> r.wf(),
            (r.key_views(), r.value_views()) == rec_with(
                self.key_views(),
                self.value_views(),
                key@,
                value@,
            ),
    {
        proof {
            lemma_key_index(self.key_views(), key@);
            lemma_values_view(self.keys@);
            lemma_values_view(self.values@);
            if self.wf() {
                lemma_rec_with_wf(self.key_views(), self.value_views(), key@, value@);
            }
        }
        let pos = find_key(&self.keys, &key);
        let mut keys = copy_values(&self.keys);
        let mut values = copy_values(&self.values);
        let ghost ks = self.key_views();
        let ghost vs = self.value_views();
        let ghost kv = key@;
        let ghost vv = value@;
        match pos {
            Some(p) => {
                if p < values.len() {
                    values.set(p, value);
                    proof {
                        lemma_values_view_is(values@, vs.update(p as int, vv));
                    }
                }
            },
            None => {
                keys.push(key);
                values.push(value);
                proof {
                    lemma_values_view_is(keys@, ks.push(kv));
                    lemma_values_view_is(values@, vs.push(vv));
                }
            },
        }
        RecordData { keys, values }
    }

    /// A new record without `key`, or `None` when the record does not hold
    /// it.
    pub fn without(&self, key: &Value) -> (r: Option<RecordData>)
        ensures
            r is None <==> rec_without(self.key_views(), self.value_views(), key@) is None,
            r matches Some(rec) ==> (self.wf() ==> rec.wf()) && rec_without(
                self.key_views(),
                self.value_views(),
                key@,
            ) == Some((rec.key_views(), rec.value_views())),
    {
        proof {
            lemma_key_index(self.key_views(), key@);
            lemma_values_view(self.keys@);
            lemma_values_view(self.values@);
        }
        match find_key(&self.keys, key) {
            None => None,
            Some(p) => {
                let ghost ks = self.key_views();
                let ghost vs = self.value_views();
                proof {
                    if self.wf() {
                        lemma_rec_without_wf(ks, vs, key@);
                    }
                }
                let mut keys = copy_values(&self.keys);
                let mut values = copy_values(&self.values);
                keys.remove(p);
                if p < values.len() {
                    values.remove(p);
                    proof {
                        lemma_values_view_is(values@, vs.remove(p as int));
                    }
                }
                proof {
                    lemma_values_view_is(keys@, ks.remove(p as int));
                }
                Some(RecordData { keys, values })
            },
        }
    }

    /// The right-biased union of this record and `other`: this record's keys
    /// in their order, `other`'s new keys after them, and `other`'s value
    /// wherever both hold a key.
    pub fn merge(&self, other: &RecordData) -> (r: RecordData)
        ensures
            self.wf() ==> r.wf(),
            (r.key_views(), r.value_views()) == rec_merge(
                self.key_views(),
                self.value_views(),
                other.key_views(),
                other.value_views(),
            ),
    {
        let ghost ks = self.key_views();
        let ghost vs = self.value_views();
        let ghost ks2 = other.key_views();
        let ghost vs2 = other.value_views();
        proof {
            lemma_values_view(other.keys@);
            lemma_values_view(other.values@);
            lemma_values_view(self.keys@);
            lemma_values_view(self.values@);
        }
        let n = if other.keys.len() <= other.values.len() {
            other.keys.len()
        } else {
            other.values.len()
        };
        let mut acc = RecordData { keys: copy_values(&self.keys), values: copy_values(&self.values) };
        let mut i: usize = 0;
        while i < n
            invariant
                0 <= i <= n,
                n <= other.keys@.len(),
                n <= other.values@.len(),
                n == (if ks2.len() <= vs2.len() { ks2.len() } else { vs2.len() }),
                ks == self.key_views(),
                vs == self.value_views(),
                ks2 == other.key_views(),
                vs2 == other.value_views(),
                ks2.len() == other.keys@.len(),
                vs2.len() == other.values@.len(),
                forall|m: int| 0 <= m < other.keys@.len() ==> #[trigger] ks2[m] == other.keys@[m]@,
                forall|m: int| 0 <= m < other.values@.len() ==> #[trigger] vs2[m] == other.values@[m]@,
                (acc.key_views(), acc.value_views()) == rec_merge_upto(ks, vs, ks2, vs2, i as nat),
                self.wf() ==> acc.wf(),
            decreases n - i,
        {
            let k = other.keys[i].duplicate();
            let v = other.values[i].duplicate();
            let next = acc.with(k, v);
            proof {
                if self.wf() {
                    lemma_rec_merge_wf(ks, vs, ks2, vs2, (i + 1) as nat);
                }
            }
            acc = next;
            i = i + 1;
        }
        acc
    }
}

} // verus!
