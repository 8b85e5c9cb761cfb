//! Stable ordering by an integer key, as `sort_by_key` gives it.
use vstd::prelude::*;

verus! {

/// Items that are ordered by an unsigned integer key.
pub trait SortKey {
    /// The key, as a mathematical integer.
    spec fn key_of(&self) -> int;

    /// Computes the key.
    fn sort_key(&self) -> (k: u64)
        ensures
            k as int == self.key_of(),
    ;
}

/// `s` is ordered by key, smallest first.
pub open spec fn sorted_by_key<T: SortKey>(s: Seq<T>) -> bool {
    forall|i: int, j: int| 0 <= i <= j < s.len() ==> s[i].key_of() <= s[j].key_of()
}

/// Inserts `x` behind every element whose key is at most its own.
pub open spec fn insert_by_key<T: SortKey>(s: Seq<T>, x: T) -> Seq<T>
    decreases s.len(),
{
    if s.len() == 0 {
        seq![x]
    } else if s.last().key_of() <= x.key_of() {
        s.push(x)
    } else {
        insert_by_key(s.drop_last(), x).push(s.last())
    }
}

/// `s` ordered by key; elements with equal keys keep their order (a stable sort).
pub open spec fn sort_by_key<T: SortKey>(s: Seq<T>) -> Seq<T>
    decreases s.len(),
{
    if s.len() == 0 {
        s
    } else {
        insert_by_key(sort_by_key(s.drop_last()), s.last())
    }
}

/// Holds of the elements whose key is `k`.
pub open spec fn key_is<T: SortKey>(k: int) -> spec_fn(T) -> bool {
    |x: T| x.key_of() == k
}

/// The elements of `s` whose key is `k`, in order.
pub open spec fn with_key<T: SortKey>(s: Seq<T>, k: int) -> Seq<T> {
    s.filter(key_is(k))
}

proof fn lemma_insert_shape<T: SortKey>(s: Seq<T>, x: T)
    ensures
        insert_by_key(s, x).len() == s.len() + 1,
        insert_by_key(s, x).to_multiset() =~= s.to_multiset().insert(x),
        forall|k: int| #[trigger] with_key(insert_by_key(s, x), k) == (if x.key_of() == k {
            with_key(s, k).push(x)
        } else {
            with_key(s, k)
        }),
    decreases s.len(),
{
    broadcast use vstd::seq_lib::group_seq_properties;
    if s.len() == 0 {
        assert(s =~= Seq::<T>::empty());
        assert(insert_by_key(s, x) =~= s.push(x));
        assert forall|k: int| #[trigger] with_key(insert_by_key(s, x), k) == (if x.key_of() == k {
            with_key(s, k).push(x)
        } else {
            with_key(s, k)
        }) by {
            s.lemma_filter_push(x, key_is::<T>(k));
        }
    } else if s.last().key_of() <= x.key_of() {
        s.lemma_add_last_back();
        assert forall|k: int| #[trigger] with_key(insert_by_key(s, x), k) == (if x.key_of() == k {
            with_key(s, k).push(x)
        } else {
            with_key(s, k)
        }) by {
            s.lemma_filter_push(x, key_is::<T>(k));
        }
    } else {
        let t = s.drop_last();
        let l = s.last();
        lemma_insert_shape(t, x);
        assert(s =~= t.push(l));
        assert forall|k: int| #[trigger] with_key(insert_by_key(s, x), k) == (if x.key_of() == k {
            with_key(s, k).push(x)
        } else {
            with_key(s, k)
        }) by {
            assert(insert_by_key(s, x) == insert_by_key(t, x).push(l));
            insert_by_key(t, x).lemma_filter_push(l, key_is::<T>(k));
            t.lemma_filter_push(l, key_is::<T>(k));
            assert(with_key(insert_by_key(t, x), k) == (if x.key_of() == k {
                with_key(t, k).push(x)
            } else {
                with_key(t, k)
            }));
            assert(with_key(s, k) == with_key(t.push(l), k));
        }
        assert(insert_by_key(s, x).to_multiset() =~= insert_by_key(t, x).to_multiset().insert(l));
        assert(s.to_multiset() =~= t.to_multiset().insert(l));
    }
}

proof fn lemma_insert_sorted<T: SortKey>(s: Seq<T>, x: T)
    requires
        sorted_by_key(s),
    ensures
        sorted_by_key(insert_by_key(s, x)),
        forall|i: int| 0 <= i < insert_by_key(s, x).len() ==>
            (#[trigger] insert_by_key(s, x)[i]).key_of() <= x.key_of() || (
            exists|j: int| 0 <= j < s.len() && s[j] == insert_by_key(s, x)[i]),
    decreases s.len(),
{
    lemma_insert_shape(s, x);
    if s.len() == 0 {
    } else if s.last().key_of() <= x.key_of() {
        let r = s.push(x);
        assert forall|i: int| 0 <= i < r.len() implies (#[trigger] r[i]).key_of() <= x.key_of() || (
            exists|j: int| 0 <= j < s.len() && s[j] == r[i]) by {
            if i < s.len() {
                assert(s[i] == r[i]);
            }
        }
    } else {
        let t = s.drop_last();
        let l = s.last();
        lemma_insert_sorted(t, x);
        let r0 = insert_by_key(t, x);
        let r = r0.push(l);
        assert forall|i: int, j: int| 0 <= i <= j < r.len() implies r[i].key_of() <= r[j].key_of() by {
            if j == r.len() - 1 && i < j {
                assert(r[i] == r0[i]);
                if r0[i].key_of() > x.key_of() {
                    let m = choose|m: int| 0 <= m < t.len() && t[m] == r0[i];
                    assert(s[m] == t[m]);
                }
            }
        }
        assert forall|i: int| 0 <= i < r.len() implies (#[trigger] r[i]).key_of() <= x.key_of() || (
            exists|j: int| 0 <= j < s.len() && s[j] == r[i]) by {
            if i < r.len() - 1 {
                assert(r[i] == r0[i]);
                if r0[i].key_of() > x.key_of() {
                    let m = choose|m: int| 0 <= m < t.len() && t[m] == r0[i];
                    assert(s[m] == t[m]);
                }
            } else {
                assert(s[s.len() - 1] == r[i]);
            }
        }
    }
}

/// A stable sort orders by key, keeps every element, and keeps the order
/// of the elements that share a key.
pub proof fn lemma_sort_by_key<T: SortKey>(s: Seq<T>)
    ensures
        sorted_by_key(sort_by_key(s)),
        sort_by_key(s).len() == s.len(),
        sort_by_key(s).to_multiset() =~= s.to_multiset(),
        forall|k: int| #[trigger] with_key(sort_by_key(s), k) == with_key(s, k),
    decreases s.len(),
{
    broadcast use vstd::seq_lib::group_seq_properties;
    if s.len() == 0 {
    } else {
        let t = s.drop_last();
        let l = s.last();
        lemma_sort_by_key(t);
        lemma_insert_shape(sort_by_key(t), l);
        lemma_insert_sorted(sort_by_key(t), l);
        assert(s =~= t.push(l));
        assert(s.to_multiset() =~= t.to_multiset().insert(l));
        assert forall|k: int| #[trigger] with_key(sort_by_key(s), k) == with_key(s, k) by {
            t.lemma_filter_push(l, key_is::<T>(k));
            assert(with_key(sort_by_key(t), k) == with_key(t, k));
        }
    }
}

/// A sequence with no element of key `k` has nothing to keep for `k`.
proof fn lemma_with_key_none<T: SortKey>(s: Seq<T>, k: int)
    requires
        forall|m: int| 0 <= m < s.len() ==> (#[trigger] s[m]).key_of() != k,
    ensures
        with_key(s, k) == Seq::<T>::empty(),
    decreases s.len(),
{
    if s.len() > 0 {
        let t = s.drop_last();
        assert(t.push(s.last()) =~= s);
        t.lemma_filter_push(s.last(), key_is::<T>(k));
        assert forall|m: int| 0 <= m < t.len() implies (#[trigger] t[m]).key_of() != k by {
            assert(t[m] == s[m]);
        }
        lemma_with_key_none(t, k);
    } else {
        reveal(Seq::filter);
    }
}

/// Two sequences ordered by key that hold, for every key, the same
/// elements in the same order are the same sequence.
proof fn lemma_sorted_unique<T: SortKey>(a: Seq<T>, b: Seq<T>)
    requires
        sorted_by_key(a),
        sorted_by_key(b),
        forall|k: int| #[trigger] with_key(a, k) == with_key(b, k),
    ensures
        a == b,
    decreases a.len(),
{
    broadcast use vstd::seq_lib::group_seq_properties;
    if a.len() == 0 || b.len() == 0 {
        if a.len() > 0 {
            a.lemma_filter_contains(key_is::<T>(a[0].key_of()), 0);
            b.lemma_filter_len(key_is::<T>(a[0].key_of()));
            assert(with_key(a, a[0].key_of()) == with_key(b, a[0].key_of()));
        }
        if b.len() > 0 {
            b.lemma_filter_contains(key_is::<T>(b[0].key_of()), 0);
            a.lemma_filter_len(key_is::<T>(b[0].key_of()));
            assert(with_key(a, b[0].key_of()) == with_key(b, b[0].key_of()));
        }
        assert(a =~= b);
    } else {
        let x = a.last();
        let y = b.last();
        let ka = x.key_of();
        let kb = y.key_of();
        a.lemma_filter_contains(key_is::<T>(ka), a.len() - 1);
        assert(with_key(a, ka) == with_key(b, ka));
        b.lemma_filter_contains_rev(key_is::<T>(ka), x);
        let ib = choose|m: int| 0 <= m < b.len() && b[m] == x;
        assert(b[ib].key_of() <= b[b.len() - 1].key_of());
        b.lemma_filter_contains(key_is::<T>(kb), b.len() - 1);
        assert(with_key(a, kb) == with_key(b, kb));
        a.lemma_filter_contains_rev(key_is::<T>(kb), y);
        let ia = choose|m: int| 0 <= m < a.len() && a[m] == y;
        assert(a[ia].key_of() <= a[a.len() - 1].key_of());
        let ta = a.drop_last();
        let tb = b.drop_last();
        assert(ta.push(x) =~= a);
        assert(tb.push(y) =~= b);
        assert forall|k: int| #[trigger] with_key(ta, k) == with_key(tb, k) by {
            ta.lemma_filter_push(x, key_is::<T>(k));
            tb.lemma_filter_push(y, key_is::<T>(k));
            assert(with_key(a, k) == with_key(b, k));
            if k == ka {
                assert(with_key(ta, k) =~= with_key(a, k).drop_last());
                assert(with_key(tb, k) =~= with_key(b, k).drop_last());
            }
        }
        ta.lemma_filter_push(x, key_is::<T>(ka));
        tb.lemma_filter_push(y, key_is::<T>(ka));
        assert(with_key(a, ka).last() == x);
        assert(with_key(b, ka).last() == y);
        assert(with_key(a, ka) == with_key(b, ka));
        lemma_sorted_unique(ta, tb);
    }
}

/// The elements of `v` in reverse order.
fn reversed<T>(v: Vec<T>) -> (r: Vec<T>)
    ensures
        r@.len() == v@.len(),
        forall|m: int| 0 <= m < v@.len() ==> #[trigger] r@[m] == v@[v@.len() - 1 - m],
{
    let ghost orig = v@;
    let mut v = v;
    let mut r: Vec<T> = Vec::new();
    while v.len() > 0
        invariant
            v@.len() + r@.len() == orig.len(),
            v@ == orig.take(v@.len() as int),
            forall|m: int| 0 <= m < r@.len() ==> #[trigger] r@[m] == orig[orig.len() - 1 - m],
        decreases v@.len(),
    {
        let ghost before = v@;
        match v.pop() {
            Some(x) => {
                assert(x == orig[orig.len() - 1 - r@.len()]);
                r.push(x);
                assert(v@ =~= orig.take(v@.len() as int));
            },
            None => {},
        }
    }
    r
}

/// Merges two sequences ordered by key into one; where keys tie, elements
/// of `a` come before those of `b`.
fn merge_by_key<T: SortKey>(a: Vec<T>, b: Vec<T>) -> (out: Vec<T>)
    requires
        sorted_by_key(a@),
        sorted_by_key(b@),
    ensures
        sorted_by_key(out@),
        forall|k: int| #[trigger] with_key(out@, k) == with_key(a@, k) + with_key(b@, k),
{
    broadcast use vstd::seq_lib::group_seq_properties;
    let ghost sa = a@;
    let ghost sb = b@;
    let mut ra = reversed(a);
    let mut rb = reversed(b);
    let mut out: Vec<T> = Vec::new();
    proof {
        assert forall|k: int| #[trigger] with_key(out@, k) == with_key(sa.take(0), k) + with_key(sb.take(0), k) by {
            lemma_with_key_none(out@, k);
            lemma_with_key_none(sa.take(0), k);
            lemma_with_key_none(sb.take(0), k);
        }
    }
    while ra.len() > 0 || rb.len() > 0
        invariant
            sorted_by_key(sa),
            sorted_by_key(sb),
            ra@.len() <= sa.len(),
            rb@.len() <= sb.len(),
            forall|m: int| 0 <= m < ra@.len() ==> #[trigger] ra@[m] == sa[sa.len() - 1 - m],
            forall|m: int| 0 <= m < rb@.len() ==> #[trigger] rb@[m] == sb[sb.len() - 1 - m],
            sorted_by_key(out@),
            forall|k: int| #[trigger] with_key(out@, k) == with_key(sa.take(sa.len() - ra@.len()), k) + with_key(
                sb.take(sb.len() - rb@.len()),
                k,
            ),
            forall|m: int|
                0 <= m < out@.len() ==> (ra@.len() > 0 ==> (#[trigger] out@[m]).key_of() <= sa[sa.len()
                    - ra@.len()].key_of()) && (rb@.len() > 0 ==> out@[m].key_of() <= sb[sb.len()
                    - rb@.len()].key_of()),
            ra@.len() > 0 ==> forall|m: int|
                0 <= m < sb.len() - rb@.len() ==> (#[trigger] sb[m]).key_of() < sa[sa.len()
                    - ra@.len()].key_of(),
        decreases ra@.len() + rb@.len(),
    {
        let ghost i = sa.len() - ra@.len();
        let ghost j = sb.len() - rb@.len();
        let ghost before = out@;
        let take_a = if ra.len() == 0 {
            false
        } else if rb.len() == 0 {
            true
        } else {
            ra[ra.len() - 1].sort_key() <= rb[rb.len() - 1].sort_key()
        };
        if take_a {
            let ghost ra_before = ra@;
            match ra.pop() {
                Some(x) => {
                    assert(x == sa[i]);
                    out.push(x);
                    proof {
                        assert(sa.take(i + 1) =~= sa.take(i).push(x));
                        assert forall|m: int| 0 <= m < ra@.len() implies #[trigger] ra@[m] == sa[sa.len() - 1 - m] by {
                            assert(ra@[m] == ra_before[m]);
                        }
                        assert forall|k: int| #[trigger] with_key(out@, k) == with_key(sa.take(i + 1), k) + with_key(
                            sb.take(j),
                            k,
                        ) by {
                            before.lemma_filter_push(x, key_is::<T>(k));
                            sa.take(i).lemma_filter_push(x, key_is::<T>(k));
                            assert(with_key(before, k) == with_key(sa.take(i), k) + with_key(sb.take(j), k));
                            if k == x.key_of() {
                                assert forall|m: int| 0 <= m < sb.take(j).len() implies (#[trigger] sb.take(j)[m]).key_of() != k by {
                                    assert(sb.take(j)[m] == sb[m]);
                                }
                                lemma_with_key_none(sb.take(j), k);
                                assert(with_key(out@, k) =~= with_key(sa.take(i + 1), k) + with_key(sb.take(j), k));
                            }
                        }
                        if ra@.len() > 0 {
                            assert(sa[i].key_of() <= sa[i + 1].key_of());
                        }
                    }
                },
                None => {},
            }
        } else {
            let ghost rb_before = rb@;
            match rb.pop() {
                Some(y) => {
                    assert(y == sb[j]);
                    out.push(y);
                    proof {
                        assert(sb.take(j + 1) =~= sb.take(j).push(y));
                        assert forall|m: int| 0 <= m < rb@.len() implies #[trigger] rb@[m] == sb[sb.len() - 1 - m] by {
                            assert(rb@[m] == rb_before[m]);
                        }
                        assert forall|k: int| #[trigger] with_key(out@, k) == with_key(sa.take(i), k) + with_key(
                            sb.take(j + 1),
                            k,
                        ) by {
                            before.lemma_filter_push(y, key_is::<T>(k));
                            sb.take(j).lemma_filter_push(y, key_is::<T>(k));
                            assert(with_key(before, k) == with_key(sa.take(i), k) + with_key(sb.take(j), k));
                            if k == y.key_of() {
                                assert(with_key(out@, k) =~= with_key(sa.take(i), k) + with_key(sb.take(j + 1), k));
                            }
                        }
                        if rb@.len() > 0 {
                            assert(sb[j].key_of() <= sb[j + 1].key_of());
                        }
                    }
                },
                None => {},
            }
        }
    }
    assert(sa.take(sa.len() as int) =~= sa);
    assert(sb.take(sb.len() as int) =~= sb);
    out
}

/// Orders `v` by key with a merge sort: halves are ordered apart and
/// merged, elements of the first half first where keys tie.
fn merge_sort<T: SortKey>(v: Vec<T>) -> (r: Vec<T>)
    ensures
        sorted_by_key(r@),
        forall|k: int| #[trigger] with_key(r@, k) == with_key(v@, k),
    decreases v@.len(),
{
    if v.len() <= 1 {
        return v;
    }
    let ghost whole = v@;
    let mut left = v;
    let mid = left.len() / 2;
    let right = left.split_off(mid);
    assert(whole =~= left@ + right@);
    let l = merge_sort(left);
    let r = merge_sort(right);
    let ghost ls = l@;
    let ghost rs = r@;
    let out = merge_by_key(l, r);
    proof {
        assert forall|k: int| #[trigger] with_key(out@, k) == with_key(whole, k) by {
            Seq::filter_distributes_over_add(left@, right@, key_is::<T>(k));
            assert(with_key(ls, k) == with_key(left@, k));
            assert(with_key(rs, k) == with_key(right@, k));
        }
    }
    out
}

/// Orders `v` by key, keeping the order of elements with equal keys.
pub fn stable_sort<T: SortKey>(v: &mut Vec<T>)
    ensures
        final(v)@ == sort_by_key(old(v)@),
{
    let ghost orig = v@;
    let mut items: Vec<T> = Vec::new();
    std::mem::swap(v, &mut items);
    let sorted = merge_sort(items);
    proof {
        lemma_sort_by_key(orig);
        lemma_sorted_unique(sorted@, sort_by_key(orig));
    }
    *v = sorted;
}

/// Every element of the sorted sequence comes from the original one.
pub proof fn lemma_sort_elements<T: SortKey>(s: Seq<T>)
    ensures
        forall|i: int|
            0 <= i < sort_by_key(s).len() ==> exists|j: int|
                0 <= j < s.len() && s[j] == #[trigger] sort_by_key(s)[i],
    decreases s.len(),
{
    lemma_sort_by_key(s);
    if s.len() > 0 {
        let t = s.drop_last();
        let l = s.last();
        lemma_sort_elements(t);
        lemma_insert_elements(sort_by_key(t), l);
        assert forall|i: int| 0 <= i < sort_by_key(s).len() implies exists|j: int|
            0 <= j < s.len() && s[j] == #[trigger] sort_by_key(s)[i] by {
            let r = sort_by_key(s);
            if r[i] == l {
                assert(s[s.len() - 1] == r[i]);
            } else {
                let m = choose|m: int| 0 <= m < sort_by_key(t).len() && sort_by_key(t)[m] == r[i];
                let j = choose|j: int| 0 <= j < t.len() && t[j] == sort_by_key(t)[m];
                assert(s[j] == t[j]);
            }
        }
    }
}

pub proof fn lemma_insert_elements<T: SortKey>(s: Seq<T>, x: T)
    ensures
        forall|i: int|
            0 <= i < insert_by_key(s, x).len() ==> #[trigger] insert_by_key(s, x)[i] == x || exists|j: int|
                0 <= j < s.len() && s[j] == insert_by_key(s, x)[i],
    decreases s.len(),
{
    lemma_insert_shape(s, x);
    if s.len() > 0 && s.last().key_of() > x.key_of() {
        let t = s.drop_last();
        lemma_insert_elements(t, x);
        let r = insert_by_key(s, x);
        assert forall|i: int| 0 <= i < r.len() implies #[trigger] r[i] == x || exists|j: int|
            0 <= j < s.len() && s[j] == r[i] by {
            if i == r.len() - 1 {
                assert(s[s.len() - 1] == r[i]);
            } else {
                assert(r[i] == insert_by_key(t, x)[i]);
                if r[i] != x {
                    let j = choose|j: int| 0 <= j < t.len() && t[j] == insert_by_key(t, x)[i];
                    assert(s[j] == t[j]);
                }
            }
        }
    } else if s.len() > 0 {
        let r = insert_by_key(s, x);
        assert forall|i: int| 0 <= i < r.len() implies #[trigger] r[i] == x || exists|j: int|
            0 <= j < s.len() && s[j] == r[i] by {
            if i < s.len() {
                assert(s[i] == r[i]);
            }
        }
    }
}

} // verus!
