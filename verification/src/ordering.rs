//! Ordering and grouping: the stable ascending permutation of a list of
//! numbers, and the first-occurrence scan that `UNIQUE`, `TALLY` and `GROUP`
//! share.
use crate::rational::Fraction;
use crate::records::{key_index, lemma_key_index};
use crate::value::ValueView;
use vstd::prelude::*;

verus! {

// ── Rational order ───────────────────────────────────────────────────────────
/// `x <= y` as rationals.
pub open spec fn frac_le(x: Fraction, y: Fraction) -> bool {
    !y.less_than(x)
}

proof fn lemma_lt_le_trans(x: Fraction, y: Fraction, z: Fraction)
    requires
        x.den() > 0,
        y.den() > 0,
        z.den() > 0,
        x.less_than(y),
        frac_le(y, z),
    ensures
        x.less_than(z),
{
    let (xn, xd, yn, yd, zn, zd) = (x.num(), x.den(), y.num(), y.den(), z.num(), z.den());
    assert(xn * zd < zn * xd) by (nonlinear_arith)
        requires
            xn * yd < yn * xd,
            yn * zd <= zn * yd,
            xd > 0,
            yd > 0,
            zd > 0,
    {
        assert(xn * yd * zd < yn * xd * zd);
        assert(yn * zd * xd <= zn * yd * xd);
        assert((xn * zd) * yd < (zn * xd) * yd);
    }
}

// ── Stable ascending order ───────────────────────────────────────────────────
/// Position `i` comes before position `j` in the stable ascending order of
/// `keys`: a smaller number first, equal numbers in their original order.
pub open spec fn before(keys: Seq<Fraction>, i: int, j: int) -> bool {
    keys[i].less_than(keys[j]) || (frac_le(keys[i], keys[j]) && i < j)
}

/// Position `i` occurs in `perm`.
pub open spec fn occurs(perm: Seq<usize>, i: int) -> bool {
    exists|a: int| 0 <= a < perm.len() && #[trigger] perm[a] == i
}

/// `perm` lists every position of `keys` once, in stable ascending order.
pub open spec fn is_stable_order(keys: Seq<Fraction>, perm: Seq<usize>) -> bool {
    &&& perm.len() == keys.len()
    &&& forall|a: int| 0 <= a < perm.len() ==> #[trigger] perm[a] < keys.len()
    &&& forall|i: int| 0 <= i < keys.len() ==> #[trigger] occurs(perm, i)
    &&& forall|a: int, b: int|
        0 <= a < b < perm.len() ==> before(keys, #[trigger] perm[a] as int, #[trigger] perm[b] as int)
}

/// The stable ascending order of `keys`: the positions of `keys` listed so
/// that the numbers they hold ascend, equal numbers keeping their original
/// order.
pub fn stable_order(keys: &Vec<Fraction>) -> (perm: Vec<usize>)
    ensures
        is_stable_order(keys@, perm@),
{
    let n = keys.len();
    let ghost ks = keys@;
    let mut k: usize = 0;
    let mut perm: Vec<usize> = Vec::new();
    // every number seen so far has a positive denominator
    while k < n
        invariant
            n == keys@.len(),
            ks == keys@,
            0 <= k <= n,
            perm@.len() == k,
            forall|a: int| 0 <= a < perm@.len() ==> #[trigger] perm@[a] < k,
            forall|i: int| 0 <= i < k ==> #[trigger] occurs(perm@, i),
            forall|a: int, b: int|
                0 <= a < b < perm@.len() ==> before(ks, #[trigger] perm@[a] as int, #[trigger] perm@[b] as int),
            forall|i: int| 0 <= i < k ==> (#[trigger] ks[i]).den() > 0,
        decreases n - k,
    {
        keys[k].bounds();
        // the first position whose number exceeds keys[k]
        let mut p: usize = 0;
        while p < perm.len() && !keys[k].lt(&keys[perm[p]])
            invariant
                n == keys@.len(),
                ks == keys@,
                k < n,
                0 <= p <= perm@.len(),
                perm@.len() == k,
                forall|a: int| 0 <= a < perm@.len() ==> #[trigger] perm@[a] < k,
                forall|a: int| 0 <= a < p ==> frac_le(ks[#[trigger] perm@[a] as int], ks[k as int]),
            decreases perm@.len() - p,
        {
            p = p + 1;
        }
        let ghost old_perm = perm@;
        perm.insert(p, k);
        proof {
            assert(perm@ == old_perm.insert(p as int, k));
            assert(ks[k as int].den() > 0);
            assert forall|a: int| 0 <= a < perm@.len() implies #[trigger] perm@[a] < k + 1 by {
                if a < p {
                    assert(perm@[a] == old_perm[a]);
                } else if a > p {
                    assert(perm@[a] == old_perm[a - 1]);
                }
            }
            assert forall|i: int| 0 <= i < k + 1 implies #[trigger] occurs(perm@, i) by {
                if i == k {
                    assert(perm@[p as int] == i);
                } else {
                    assert(occurs(old_perm, i));
                    let a0 = choose|a: int| 0 <= a < old_perm.len() && #[trigger] old_perm[a] == i;
                    if a0 < p {
                        assert(perm@[a0] == i);
                    } else {
                        assert(perm@[a0 + 1] == i);
                    }
                }
            }
            assert forall|a: int, b: int| 0 <= a < b < perm@.len() implies before(
                ks,
                #[trigger] perm@[a] as int,
                #[trigger] perm@[b] as int,
            ) by {
                let oa = if a < p {
                    a
                } else {
                    a - 1
                };
                let ob = if b <= p {
                    b
                } else {
                    b - 1
                };
                if a == p as int {
                    // keys[k] < keys[old_perm[p]] <= keys[old_perm[ob]]
                    assert(perm@[b] == old_perm[ob]);
                    assert(p < old_perm.len());
                    assert(ks[k as int].less_than(ks[old_perm[p as int] as int]));
                    if ob > p {
                        assert(before(ks, old_perm[p as int] as int, old_perm[ob] as int));
                    }
                    assert(old_perm[p as int] < k);
                    assert(old_perm[ob] < k);
                    assert(ks[old_perm[p as int] as int].den() > 0);
                    assert(ks[old_perm[ob] as int].den() > 0);
                    assert(frac_le(ks[old_perm[p as int] as int], ks[old_perm[ob] as int]));
                    lemma_lt_le_trans(
                        ks[k as int],
                        ks[old_perm[p as int] as int],
                        ks[old_perm[ob] as int],
                    );
                } else if b == p as int {
                    assert(perm@[a] == old_perm[a]);
                    assert(frac_le(ks[old_perm[a] as int], ks[k as int]));
                } else {
                    assert(perm@[a] == old_perm[oa]);
                    assert(perm@[b] == old_perm[ob]);
                }
            }
        }
        k = k + 1;
    }
    perm
}

// ── First-occurrence scan ────────────────────────────────────────────────────
/// The distinct values of `s` in first-occurrence order, with how many
/// elements each stands for. An element joins the value it first equals
/// among those kept so far, or is kept as a new one.
pub open spec fn scan_distinct(s: Seq<ValueView>) -> (Seq<ValueView>, Seq<int>)
    decreases s.len(),
{
    if s.len() == 0 {
        (Seq::empty(), Seq::empty())
    } else {
        let (kept, counts) = scan_distinct(s.drop_last());
        let p = key_index(kept, s.last());
        if p >= 0 {
            (kept, counts.update(p, counts[p] + 1))
        } else {
            (kept.push(s.last()), counts.push(1))
        }
    }
}

/// The groups `GROUP` forms: the distinct keys of `ks` in first-occurrence
/// order, and for each the values at the positions of the keys it stands
/// for, in order.
pub open spec fn scan_groups(ks: Seq<ValueView>, vs: Seq<ValueView>) -> (
    Seq<ValueView>,
    Seq<Seq<ValueView>>,
)
    decreases ks.len(),
{
    if ks.len() == 0 || vs.len() == 0 {
        (Seq::empty(), Seq::empty())
    } else {
        let (kept, buckets) = scan_groups(ks.drop_last(), vs.drop_last());
        let p = key_index(kept, ks.last());
        if p >= 0 {
            (kept, buckets.update(p, buckets[p].push(vs.last())))
        } else {
            (kept.push(ks.last()), buckets.push(seq![vs.last()]))
        }
    }
}

pub proof fn lemma_scan_distinct_shape(s: Seq<ValueView>)
    ensures
        scan_distinct(s).0.len() == scan_distinct(s).1.len(),
        scan_distinct(s).0.len() <= s.len(),
        forall|j: int|
            0 <= j < scan_distinct(s).1.len() ==> 1 <= #[trigger] scan_distinct(s).1[j] <= s.len(),
    decreases s.len(),
{
    if s.len() > 0 {
        lemma_scan_distinct_shape(s.drop_last());
        lemma_key_index(scan_distinct(s.drop_last()).0, s.last());
    }
}

pub proof fn lemma_scan_groups_shape(ks: Seq<ValueView>, vs: Seq<ValueView>)
    ensures
        scan_groups(ks, vs).0.len() == scan_groups(ks, vs).1.len(),
    decreases ks.len(),
{
    if ks.len() > 0 && vs.len() > 0 {
        lemma_scan_groups_shape(ks.drop_last(), vs.drop_last());
        lemma_key_index(scan_groups(ks.drop_last(), vs.drop_last()).0, ks.last());
    }
}

/// The total of the counts is the number of elements scanned.
pub open spec fn count_total(c: Seq<int>) -> int
    decreases c.len(),
{
    if c.len() == 0 {
        0
    } else {
        count_total(c.drop_last()) + c.last()
    }
}

proof fn lemma_count_total_update(c: Seq<int>, p: int, v: int)
    requires
        0 <= p < c.len(),
    ensures
        count_total(c.update(p, v)) == count_total(c) - c[p] + v,
    decreases c.len(),
{
    if p < c.len() - 1 {
        lemma_count_total_update(c.drop_last(), p, v);
        assert(c.update(p, v).drop_last() =~= c.drop_last().update(p, v));
    } else {
        assert(c.update(p, v).drop_last() =~= c.drop_last());
    }
}

/// `TALLY`'s counts add up to the number of elements, and there are as
/// many as `UNIQUE` reports values.
pub proof fn law_tally_sums_to_length(s: Seq<ValueView>)
    ensures
        count_total(scan_distinct(s).1) == s.len(),
        scan_distinct(s).1.len() == scan_distinct(s).0.len(),
    decreases s.len(),
{
    lemma_scan_distinct_shape(s);
    if s.len() > 0 {
        law_tally_sums_to_length(s.drop_last());
        let (kept, counts) = scan_distinct(s.drop_last());
        lemma_key_index(kept, s.last());
        let p = key_index(kept, s.last());
        if p >= 0 {
            lemma_count_total_update(counts, p, counts[p] + 1);
        } else {
            assert(counts.push(1).drop_last() =~= counts);
        }
    }
}

/// `UNIQUE` keeps no two equal values.
pub proof fn law_unique_is_distinct(s: Seq<ValueView>)
    ensures
        forall|i: int, j: int|
            0 <= i < j < scan_distinct(s).0.len() ==> !crate::value::view_eq(
                #[trigger] scan_distinct(s).0[i],
                #[trigger] scan_distinct(s).0[j],
            ),
    decreases s.len(),
{
    if s.len() > 0 {
        law_unique_is_distinct(s.drop_last());
        let (kept, counts) = scan_distinct(s.drop_last());
        lemma_key_index(kept, s.last());
        let nk = scan_distinct(s).0;
        assert forall|i: int, j: int| 0 <= i < j < nk.len() implies !crate::value::view_eq(
            #[trigger] nk[i],
            #[trigger] nk[j],
        ) by {
            if j == kept.len() {
                assert(nk[i] == kept[i]);
                assert(!crate::value::view_eq(kept[i], s.last()));
            } else {
                assert(nk[i] == kept[i]);
                assert(nk[j] == kept[j]);
            }
        }
    }
}

} // verus!
