//! One header per position: where several headers match at the same place,
//! the section listed first in the registry takes it.
use vstd::prelude::*;

use crate::boundaries::HeaderHit;
use crate::order::{
    insert_by_key, lemma_insert_elements, lemma_sort_by_key, lemma_sort_elements, sort_by_key, sorted_by_key, SortKey,
};

verus! {

/// The hits of `s` that start where the hit before them does not: the first
/// hit at each position.
pub open spec fn first_at_each_position(s: Seq<HeaderHit>) -> Seq<HeaderHit>
    decreases s.len(),
{
    if s.len() == 0 {
        s
    } else if s.len() >= 2 && s[s.len() - 2].start == s.last().start {
        first_at_each_position(s.drop_last())
    } else {
        first_at_each_position(s.drop_last()).push(s.last())
    }
}

/// Hit starts strictly increase along `s`: no two hits share a position.
pub open spec fn starts_increasing(s: Seq<HeaderHit>) -> bool {
    forall|i: int, j: int| 0 <= i < j < s.len() ==> #[trigger] s[i].start < #[trigger] s[j].start
}

/// Hits at the same position come in registry order.
pub open spec fn ties_in_registry_order(s: Seq<HeaderHit>) -> bool {
    forall|i: int, j: int|
        0 <= i < j < s.len() && s[i].start == s[j].start ==> #[trigger] s[i].section_idx
            <= #[trigger] s[j].section_idx
}

/// Section indices never decrease along `s`.
pub open spec fn registry_ordered(s: Seq<HeaderHit>) -> bool {
    forall|i: int, j: int| 0 <= i <= j < s.len() ==> #[trigger] s[i].section_idx <= #[trigger] s[j].section_idx
}

/// Keeps the first hit at each position of hits ordered by position.
pub fn keep_first_at_each_position(hits: &[HeaderHit]) -> (r: Vec<HeaderHit>)
    ensures
        r@ == first_at_each_position(hits@),
{
    let mut out: Vec<HeaderHit> = Vec::new();
    let mut i: usize = 0;
    while i < hits.len()
        invariant
            i <= hits@.len(),
            out@ == first_at_each_position(hits@.take(i as int)),
        decreases hits.len() - i,
    {
        let ghost s = hits@.take(i + 1);
        assert(s.drop_last() =~= hits@.take(i as int));
        assert(s.last() == hits@[i as int]);
        if i == 0 || hits[i - 1].start != hits[i].start {
            out.push(hits[i]);
        } else {
            assert(s[s.len() - 2] == hits@[i - 1]);
        }
        i = i + 1;
    }
    assert(hits@.take(i as int) =~= hits@);
    out
}

/// What `first_at_each_position` keeps is taken from `s`, in order, and
/// extends what it keeps of any prefix.
pub proof fn lemma_first_elements(s: Seq<HeaderHit>)
    ensures
        first_at_each_position(s).len() <= s.len(),
        forall|m: int|
            0 <= m < first_at_each_position(s).len() ==> exists|j: int|
                0 <= j < s.len() && s[j] == #[trigger] first_at_each_position(s)[m],
    decreases s.len(),
{
    if s.len() > 0 {
        let t = s.drop_last();
        lemma_first_elements(t);
        let r = first_at_each_position(s);
        assert forall|m: int| 0 <= m < r.len() implies exists|j: int|
            0 <= j < s.len() && s[j] == #[trigger] r[m] by {
            if m < first_at_each_position(t).len() {
                assert(r[m] == first_at_each_position(t)[m]);
                let j = choose|j: int| 0 <= j < t.len() && t[j] == first_at_each_position(t)[m];
                assert(s[j] == t[j]);
            } else {
                assert(r[m] == s[s.len() - 1]);
            }
        }
    }
}

/// Keeping the first hit at each position of a longer sequence keeps the
/// same first hits of its prefix, and maybe more.
pub proof fn lemma_first_prefix(a: Seq<HeaderHit>, b: Seq<HeaderHit>)
    ensures
        first_at_each_position(a).len() <= first_at_each_position(a + b).len(),
        first_at_each_position(a + b).take(first_at_each_position(a).len() as int) == first_at_each_position(a),
    decreases b.len(),
{
    if b.len() == 0 {
        assert(a + b =~= a);
        assert(first_at_each_position(a).take(first_at_each_position(a).len() as int) =~= first_at_each_position(a));
    } else {
        let b2 = b.drop_last();
        lemma_first_prefix(a, b2);
        assert((a + b).drop_last() =~= a + b2);
        let r2 = first_at_each_position(a + b2);
        let r = first_at_each_position(a + b);
        let n = first_at_each_position(a).len() as int;
        assert(r.take(n) =~= r2.take(n));
    }
}

/// With no two hits at one position, every hit is kept.
pub proof fn lemma_first_of_distinct(s: Seq<HeaderHit>)
    requires
        starts_increasing(s),
    ensures
        first_at_each_position(s) == s,
    decreases s.len(),
{
    if s.len() > 0 {
        let t = s.drop_last();
        assert(starts_increasing(t));
        lemma_first_of_distinct(t);
        if s.len() >= 2 {
            assert(s[s.len() - 2].start < s[s.len() - 1].start);
        }
        assert(t.push(s.last()) =~= s);
    }
}

/// From hits ordered by position, the kept hits have strictly increasing
/// positions.
pub proof fn lemma_first_distinct(s: Seq<HeaderHit>)
    requires
        sorted_by_key(s),
    ensures
        starts_increasing(first_at_each_position(s)),
        sorted_by_key(first_at_each_position(s)),
    decreases s.len(),
{
    if s.len() > 0 {
        let t = s.drop_last();
        let l = s.last();
        assert(sorted_by_key(t));
        lemma_first_distinct(t);
        lemma_first_elements(t);
        let rt = first_at_each_position(t);
        let r = first_at_each_position(s);
        if !(s.len() >= 2 && s[s.len() - 2].start == l.start) {
            assert(r == rt.push(l));
            assert forall|i: int, k: int| 0 <= i < k < r.len() implies #[trigger] r[i].start < #[trigger] r[k].start by {
                assert(r[i] == rt[i]);
                if k == r.len() - 1 {
                    let j = choose|j: int| 0 <= j < t.len() && t[j] == rt[i];
                    assert(s[j] == t[j]);
                    assert(s[j].key_of() <= s[s.len() - 2].key_of());
                    assert(s[s.len() - 2].key_of() <= s[s.len() - 1].key_of());
                } else {
                    assert(r[k] == rt[k]);
                }
            }
        }
    }
}

/// Every hit has a kept hit at its position whose section comes no later in
/// the registry, when hits at one position come in registry order.
pub proof fn lemma_first_covers(s: Seq<HeaderHit>)
    requires
        ties_in_registry_order(s),
    ensures
        forall|j: int|
            0 <= j < s.len() ==> exists|m: int|
                0 <= m < first_at_each_position(s).len() && (#[trigger] first_at_each_position(s)[m]).start
                    == #[trigger] s[j].start && first_at_each_position(s)[m].section_idx <= s[j].section_idx,
    decreases s.len(),
{
    if s.len() > 0 {
        let t = s.drop_last();
        let l = s.last();
        assert(ties_in_registry_order(t));
        lemma_first_covers(t);
        let rt = first_at_each_position(t);
        let r = first_at_each_position(s);
        let tied = s.len() >= 2 && s[s.len() - 2].start == l.start;
        if tied {
            assert(r == rt);
        } else {
            assert(r == rt.push(l));
        }
        assert forall|j: int| 0 <= j < s.len() implies exists|m: int|
            0 <= m < r.len() && (#[trigger] r[m]).start == #[trigger] s[j].start && r[m].section_idx
                <= s[j].section_idx by {
            if j < s.len() - 1 {
                assert(s[j] == t[j]);
                let m = choose|m: int|
                    0 <= m < rt.len() && (#[trigger] rt[m]).start == #[trigger] t[j].start && rt[m].section_idx
                        <= t[j].section_idx;
                assert(r[m] == rt[m]);
            } else if tied {
                assert(s[s.len() - 2] == t[t.len() - 1]);
                let m = choose|m: int|
                    0 <= m < rt.len() && (#[trigger] rt[m]).start == #[trigger] t[t.len() - 1].start
                        && rt[m].section_idx <= t[t.len() - 1].section_idx;
                assert(r[m] == rt[m]);
                assert(s[s.len() - 2].section_idx <= s[j].section_idx);
            } else {
                assert(r[r.len() - 1] == s[j]);
            }
        }
    }
}

proof fn lemma_insert_keeps_ties(r: Seq<HeaderHit>, x: HeaderHit)
    requires
        ties_in_registry_order(r),
        forall|i: int| 0 <= i < r.len() ==> (#[trigger] r[i]).section_idx <= x.section_idx,
    ensures
        ties_in_registry_order(insert_by_key(r, x)),
    decreases r.len(),
{
    if r.len() == 0 {
    } else if r.last().start <= x.start {
        let q = r.push(x);
        assert forall|i: int, j: int| 0 <= i < j < q.len() && q[i].start == q[j].start implies #[trigger] q[i].section_idx
            <= #[trigger] q[j].section_idx by {
            assert(q[i] == r[i]);
            if j < r.len() {
                assert(q[j] == r[j]);
            }
        }
    } else {
        let t = r.drop_last();
        let l = r.last();
        assert(ties_in_registry_order(t));
        lemma_insert_keeps_ties(t, x);
        lemma_insert_elements(t, x);
        let q0 = insert_by_key(t, x);
        let q = q0.push(l);
        assert(insert_by_key(r, x) == q);
        assert forall|i: int, j: int| 0 <= i < j < q.len() && q[i].start == q[j].start implies #[trigger] q[i].section_idx
            <= #[trigger] q[j].section_idx by {
            assert(q[i] == q0[i]);
            if j < q0.len() {
                assert(q[j] == q0[j]);
            } else {
                assert(q[j] == l);
                if q0[i] != x {
                    let k = choose|k: int| 0 <= k < t.len() && t[k] == q0[i];
                    assert(r[k] == t[k]);
                    assert(r[r.len() - 1] == l);
                }
            }
        }
    }
}

/// Ordering by position keeps hits at the same position in registry order,
/// when they came in registry order.
pub proof fn lemma_sort_keeps_ties(s: Seq<HeaderHit>)
    requires
        registry_ordered(s),
    ensures
        ties_in_registry_order(sort_by_key(s)),
    decreases s.len(),
{
    if s.len() > 0 {
        let t = s.drop_last();
        let l = s.last();
        assert(registry_ordered(t));
        lemma_sort_keeps_ties(t);
        lemma_sort_elements(t);
        assert forall|i: int| 0 <= i < sort_by_key(t).len() implies (#[trigger] sort_by_key(t)[i]).section_idx
            <= l.section_idx by {
            let j = choose|j: int| 0 <= j < t.len() && t[j] == sort_by_key(t)[i];
            assert(s[j] == t[j]);
        }
        lemma_sort_by_key(t);
        lemma_insert_keeps_ties(sort_by_key(t), l);
    }
}

/// Each hit of `s` is in its ordered form.
proof fn lemma_in_sorted(s: Seq<HeaderHit>, j: int)
    requires
        0 <= j < s.len(),
    ensures
        exists|k: int| 0 <= k < sort_by_key(s).len() && sort_by_key(s)[k] == s[j],
{
    lemma_sort_by_key(s);
    s.to_multiset_ensures();
    sort_by_key(s).to_multiset_ensures();
    assert(s.contains(s[j]));
    assert(sort_by_key(s).to_multiset().count(s[j]) > 0);
}

/// Ordering hits that come in registry order by position and keeping the
/// first at each position leaves, at the position of every hit, one hit of
/// a section listed no later.
pub proof fn lemma_kept_cover(s: Seq<HeaderHit>)
    requires
        registry_ordered(s),
    ensures
        forall|j: int|
            0 <= j < s.len() ==> exists|m: int|
                0 <= m < first_at_each_position(sort_by_key(s)).len() && (#[trigger] first_at_each_position(
                    sort_by_key(s),
                )[m]).start == (#[trigger] s[j]).start && first_at_each_position(sort_by_key(s))[m].section_idx
                    <= s[j].section_idx,
{
    let sorted = sort_by_key(s);
    let kept = first_at_each_position(sorted);
    lemma_sort_keeps_ties(s);
    lemma_first_covers(sorted);
    assert forall|j: int| 0 <= j < s.len() implies exists|m: int|
        0 <= m < kept.len() && (#[trigger] kept[m]).start == (#[trigger] s[j]).start && kept[m].section_idx
            <= s[j].section_idx by {
        lemma_in_sorted(s, j);
        let k = choose|k: int| 0 <= k < sorted.len() && sorted[k] == s[j];
        assert(exists|m: int|
            0 <= m < kept.len() && (#[trigger] kept[m]).start == #[trigger] sorted[k].start && kept[m].section_idx
                <= sorted[k].section_idx);
    }
}

/// Every kept hit is a hit of `s`.
pub proof fn lemma_kept_from(s: Seq<HeaderHit>)
    ensures
        forall|m: int|
            0 <= m < first_at_each_position(sort_by_key(s)).len() ==> exists|j: int|
                0 <= j < s.len() && s[j] == #[trigger] first_at_each_position(sort_by_key(s))[m],
{
    let sorted = sort_by_key(s);
    let kept = first_at_each_position(sorted);
    lemma_sort_elements(s);
    lemma_first_elements(sorted);
    assert forall|m: int| 0 <= m < kept.len() implies exists|j: int| 0 <= j < s.len() && s[j] == #[trigger] kept[m] by {
        let k = choose|k: int| 0 <= k < sorted.len() && sorted[k] == #[trigger] kept[m];
        let j = choose|j: int| 0 <= j < s.len() && s[j] == #[trigger] sorted[k];
    }
}

} // verus!
