//! Aggregations applied to every capture of one content pattern in a section.
use vstd::prelude::*;
use vstd::string::StringExecFns;

use crate::matching::capture_bytes;
use crate::text::{
    decimal, join, lemma_join_front, lemma_split_walk, lossy_text, occurs_at, parse_u64, parse_u64_bytes, split,
    split_acc, u64_to_decimal, utf8_lossy,
};

verus! {

/// Sum of the captures that parse as unsigned decimal numbers; any other
/// capture is skipped.
pub open spec fn parsed_sum(caps: Seq<Seq<u8>>) -> nat
    decreases caps.len(),
{
    if caps.len() == 0 {
        0
    } else {
        parsed_sum(caps.drop_last()) + match parse_u64(caps.last()) {
            Some(v) => v as nat,
            None => 0,
        }
    }
}

/// The text of each capture, invalid UTF-8 replaced.
pub open spec fn lossy_all(caps: Seq<Seq<u8>>) -> Seq<Seq<char>> {
    caps.map_values(|c: Seq<u8>| utf8_lossy(c))
}

/// The text of each capture, for captures that are valid UTF-8.
pub open spec fn decoded_all(caps: Seq<Seq<u8>>) -> Seq<Seq<char>> {
    caps.map_values(|c: Seq<u8>| vstd::utf8::decode_utf8(c))
}

/// The separator placed between collected captures.
pub open spec fn list_separator() -> Seq<char> {
    seq![',', ' ']
}

/// Adding captures never lowers the sum.
pub proof fn lemma_parsed_sum_prefix(caps: Seq<Seq<u8>>, i: int)
    requires
        0 <= i <= caps.len(),
    ensures
        parsed_sum(caps.take(i)) <= parsed_sum(caps),
    decreases caps.len(),
{
    if i < caps.len() {
        assert(caps.drop_last().take(i) =~= caps.take(i));
        lemma_parsed_sum_prefix(caps.drop_last(), i);
    } else {
        assert(caps.take(i) =~= caps);
    }
}

/// Summing is additive: the sum over the captures of two runs, one after
/// the other, is the sum over the first plus the sum over the second.
pub proof fn lemma_parsed_sum_concat(a: Seq<Seq<u8>>, b: Seq<Seq<u8>>)
    ensures
        parsed_sum(a + b) == parsed_sum(a) + parsed_sum(b),
    decreases b.len(),
{
    if b.len() == 0 {
        assert(a + b =~= a);
    } else {
        assert((a + b).drop_last() =~= a + b.drop_last());
        assert((a + b).last() == b.last());
        lemma_parsed_sum_concat(a, b.drop_last());
    }
}

/// The order of the captures does not matter: any rearrangement of them
/// has the same sum.
pub proof fn lemma_parsed_sum_permutation(s: Seq<Seq<u8>>, p: Seq<Seq<u8>>)
    requires
        s.to_multiset() == p.to_multiset(),
    ensures
        parsed_sum(s) == parsed_sum(p),
    decreases s.len(),
{
    broadcast use vstd::seq_lib::group_to_multiset_ensures;
    broadcast use vstd::multiset::group_multiset_axioms;

    s.to_multiset_ensures();
    p.to_multiset_ensures();
    if s.len() == 0 {
        assert(p.len() == 0);
        assert(p =~= s);
    } else {
        let x = s.last();
        let rest = s.drop_last();
        rest.to_multiset_ensures();
        assert(rest.push(x) =~= s);
        assert(s.to_multiset() =~= rest.to_multiset().insert(x));
        assert(p.to_multiset().count(x) > 0);
        assert(p.contains(x));
        let k = choose|k: int| 0 <= k < p.len() && p[k] == x;
        let q = p.remove(k);
        assert(q.to_multiset() =~= p.to_multiset().remove(x));
        assert(q.to_multiset() =~= rest.to_multiset());
        lemma_parsed_sum_permutation(rest, q);
        let front = p.take(k);
        let back = p.skip(k + 1);
        assert(q =~= front + back);
        assert(p =~= front + seq![x] + back);
        lemma_parsed_sum_concat(front, back);
        lemma_parsed_sum_concat(front, seq![x]);
        lemma_parsed_sum_concat(front + seq![x], back);
        assert(seq![x].drop_last() =~= Seq::<Seq<u8>>::empty());
        assert((front + seq![x]).drop_last() =~= front);
    }
}

/// Collecting can be undone: where there is at least one text and none
/// contains the separator `", "`, splitting the joined texts at `", "` gives
/// back each text, in order.
pub proof fn lemma_split_joined_parts(parts: Seq<Seq<char>>)
    requires
        parts.len() > 0,
        forall|i: int, k: int|
            #![trigger occurs_at(parts[i], list_separator(), k)]
            0 <= i < parts.len() ==> !occurs_at(parts[i], list_separator(), k),
    ensures
        split(join(parts, list_separator()), list_separator()) == parts,
    decreases parts.len(),
{
    let sep = list_separator();
    let p0 = parts[0];
    if parts.len() == 1 {
        assert forall|k: int| 0 <= k < p0.len() implies !#[trigger] occurs_at(p0 + Seq::<char>::empty(), sep, k) by {
            assert(p0 + Seq::<char>::empty() =~= p0);
            assert(!occurs_at(parts[0], sep, k));
        }
        lemma_split_walk(p0, Seq::empty(), sep, Seq::empty());
        assert(p0 + Seq::<char>::empty() =~= p0);
        assert(Seq::<char>::empty() + p0 =~= p0);
        assert(!occurs_at(Seq::<char>::empty(), sep, 0));
        assert(seq![p0] =~= parts);
    } else {
        let rest = parts.drop_first();
        lemma_join_front(parts, sep);
        assert forall|i: int, k: int|
            #![trigger occurs_at(rest[i], sep, k)]
            0 <= i < rest.len() implies !occurs_at(rest[i], sep, k) by {
            assert(!occurs_at(parts[i + 1], sep, k));
        }
        lemma_split_joined_parts(rest);
        let t = sep + join(rest, sep);
        assert(p0 + sep + join(rest, sep) =~= p0 + t);
        assert forall|k: int| 0 <= k < p0.len() implies !#[trigger] occurs_at(p0 + t, sep, k) by {
            if k + 2 <= p0.len() {
                assert((p0 + t).subrange(k, k + 2) =~= p0.subrange(k, k + 2));
                assert(!occurs_at(parts[0], sep, k));
            } else if k + 2 <= (p0 + t).len() {
                assert((p0 + t)[k + 1] == ',');
                assert((p0 + t).subrange(k, k + 2)[1] != sep[1]);
            }
        }
        lemma_split_walk(p0, t, sep, Seq::empty());
        assert(Seq::<char>::empty() + p0 =~= p0);
        assert(occurs_at(t, sep, 0)) by {
            assert(t.subrange(0, 2) =~= sep);
        }
        assert(t.skip(2) =~= join(rest, sep));
        assert(split_acc(t, sep, p0) == seq![p0] + split_acc(join(rest, sep), sep, Seq::empty()));
        assert(seq![p0] + rest =~= parts);
    }
}

/// The sum of the numeric captures, or `None` where it does not fit in `u64`.
pub fn checked_sum(captures: &[&[u8]]) -> (r: Option<u64>)
    ensures
        r == (if parsed_sum(capture_bytes(captures@)) <= u64::MAX {
            Some(parsed_sum(capture_bytes(captures@)) as u64)
        } else {
            None
        }),
{
    let ghost caps = capture_bytes(captures@);
    let mut total: u64 = 0;
    let mut i: usize = 0;
    while i < captures.len()
        invariant
            i <= captures@.len(),
            caps == capture_bytes(captures@),
            total as nat == parsed_sum(caps.take(i as int)),
        decreases captures.len() - i,
    {
        assert(caps.take(i + 1).drop_last() =~= caps.take(i as int));
        assert(caps[i as int] == captures@[i as int]@);
        match parse_u64_bytes(captures[i]) {
            Some(v) => {
                if total > u64::MAX - v {
                    proof {
                        lemma_parsed_sum_prefix(caps, i + 1);
                    }
                    return None;
                }
                total = total + v;
            },
            None => {},
        }
        i = i + 1;
    }
    assert(caps.take(i as int) =~= caps);
    Some(total)
}

/// Parses each capture as `u64` and returns the decimal text of their sum;
/// captures that are not numbers are skipped.
pub fn sum(captures: &[&[u8]]) -> (r: String)
    requires
        parsed_sum(capture_bytes(captures@)) <= u64::MAX,
    ensures
        r@ == decimal(parsed_sum(capture_bytes(captures@))),
{
    match checked_sum(captures) {
        Some(total) => u64_to_decimal(total),
        None => String::new(),
    }
}

/// The number of matches, as decimal text.
pub fn count(captures: &[&[u8]]) -> (r: String)
    ensures
        r@ == decimal(captures@.len()),
{
    u64_to_decimal(captures.len() as u64)
}

/// The first capture verbatim, or an empty string where there was none.
pub fn first(captures: &[&[u8]]) -> (r: String)
    ensures
        r@ == (if captures@.len() == 0 {
            Seq::<char>::empty()
        } else {
            utf8_lossy(captures@[0]@)
        }),
        captures@.len() > 0 && vstd::utf8::valid_utf8(captures@[0]@) ==> r@ == vstd::utf8::decode_utf8(captures@[0]@),
{
    if captures.len() == 0 {
        String::new()
    } else {
        lossy_text(captures[0])
    }
}

/// All captures, joined with `", "`.
pub fn collect(captures: &[&[u8]]) -> (r: String)
    ensures
        r@ == join(lossy_all(capture_bytes(captures@)), list_separator()),
        (forall|i: int| 0 <= i < captures@.len() ==> vstd::utf8::valid_utf8(#[trigger] captures@[i]@)) ==> r@ == join(
            decoded_all(capture_bytes(captures@)),
            list_separator(),
        ),
{
    let ghost parts = lossy_all(capture_bytes(captures@));
    let mut out = String::new();
    let mut i: usize = 0;
    while i < captures.len()
        invariant
            i <= captures@.len(),
            parts == lossy_all(capture_bytes(captures@)),
            parts.len() == captures@.len(),
            out@ == join(parts.take(i as int), list_separator()),
            forall|k: int|
                0 <= k < i && vstd::utf8::valid_utf8(#[trigger] captures@[k]@) ==> parts[k]
                    == vstd::utf8::decode_utf8(captures@[k]@),
        decreases captures.len() - i,
    {
        let piece = lossy_text(captures[i]);
        assert(parts[i as int] == utf8_lossy(captures@[i as int]@));
        if i > 0 {
            let sep = ", ";
            proof {
                reveal_strlit(", ");
            }
            out.append(sep);
        }
        out.append(piece.as_str());
        assert(parts.take(i + 1).drop_last() =~= parts.take(i as int));
        assert(parts.take(i + 1).last() == parts[i as int]);
        proof {
            if i == 0 {
                assert(parts.take(1) =~= seq![parts[0]]);
            }
        }
        i = i + 1;
    }
    assert(parts.take(i as int) =~= parts);
    proof {
        if forall|k: int| 0 <= k < captures@.len() ==> vstd::utf8::valid_utf8(#[trigger] captures@[k]@) {
            assert(parts =~= decoded_all(capture_bytes(captures@))) by {
                assert forall|k: int| 0 <= k < parts.len() implies parts[k] == decoded_all(
                    capture_bytes(captures@),
                )[k] by {
                    assert(vstd::utf8::valid_utf8(captures@[k]@));
                }
            }
        }
    }
    out
}

} // verus!
