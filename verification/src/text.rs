//! Decimal numbers, byte-level ASCII helpers and string joining.
use vstd::prelude::*;
use vstd::string::StrSliceExecFns;
use vstd::string::StringExecFns;

verus! {

/// The decimal digits of `n`, most significant first, without sign or padding.
pub open spec fn decimal(n: nat) -> Seq<char>
    decreases n,
{
    if n < 10 {
        seq![digit_char(n)]
    } else {
        decimal(n / 10).push(digit_char(n % 10))
    }
}

/// The ASCII character of a single decimal digit.
pub open spec fn digit_char(d: nat) -> char {
    (('0' as nat) + d) as char
}

/// Appends the decimal text of `n` to `out`.
fn push_decimal(n: u64, out: &mut String)
    ensures
        final(out)@ == old(out)@ + decimal(n as nat),
    decreases n,
{
    if n >= 10 {
        push_decimal(n / 10, out);
    }
    let digits = "0123456789";
    proof {
        reveal_strlit("0123456789");
    }
    let d: usize = (n % 10) as usize;
    out.append(digits.substring_ascii(d, d + 1));
    proof {
        assert(digits@.subrange(d as int, d + 1) =~= seq![digit_char((n % 10) as nat)]);
    }
}

/// Decimal text of an unsigned integer, as `to_string` renders it.
pub fn u64_to_decimal(n: u64) -> (s: String)
    ensures
        s@ == decimal(n as nat),
{
    let mut s = String::new();
    push_decimal(n, &mut s);
    s
}

/// An ASCII decimal digit byte.
pub open spec fn is_digit(b: u8) -> bool {
    48 <= b <= 57
}

/// The value of a run of decimal digit bytes, most significant first.
pub open spec fn digits_value(s: Seq<u8>) -> nat
    decreases s.len(),
{
    if s.len() == 0 {
        0
    } else {
        digits_value(s.drop_last()) * 10 + (s.last() - 48) as nat
    }
}

/// Every byte of `s` is a decimal digit.
pub open spec fn all_digits(s: Seq<u8>) -> bool {
    forall|i: int| 0 <= i < s.len() ==> is_digit(#[trigger] s[i])
}

/// The digits of an unsigned number: one leading `+` is allowed and dropped.
pub open spec fn unsigned_digits(s: Seq<u8>) -> Seq<u8> {
    if s.len() > 0 && s[0] == 43 {
        s.drop_first()
    } else {
        s
    }
}

/// What parsing `s` as an unsigned 64-bit decimal number gives: an optional
/// `+`, then at least one ASCII digit, and a value that fits in `u64`.
pub open spec fn parse_u64(s: Seq<u8>) -> Option<u64> {
    let d = unsigned_digits(s);
    if d.len() > 0 && all_digits(d) && digits_value(d) <= u64::MAX {
        Some(digits_value(d) as u64)
    } else {
        None
    }
}

/// A longer run of digits is worth at least as much as any of its prefixes.
pub proof fn lemma_digits_value_prefix(s: Seq<u8>, i: int)
    requires
        0 <= i <= s.len(),
        all_digits(s),
    ensures
        digits_value(s.take(i)) <= digits_value(s),
    decreases s.len(),
{
    if i < s.len() {
        assert(s.drop_last().take(i) =~= s.take(i));
        lemma_digits_value_prefix(s.drop_last(), i);
    } else {
        assert(s.take(i) =~= s);
    }
}

/// Parses the bytes of an unsigned decimal number (see `parse_u64`).
pub fn parse_u64_bytes(s: &[u8]) -> (r: Option<u64>)
    ensures
        r == parse_u64(s@),
{
    let n = s.len();
    let mut i: usize = 0;
    if n > 0 && s[0] == 43u8 {
        i = 1;
    }
    let start = i;
    let ghost d = unsigned_digits(s@);
    assert(d =~= s@.subrange(start as int, n as int));
    if start == n {
        return None;
    }
    let mut v: u64 = 0;
    while i < n
        invariant
            start <= i <= n,
            n == s@.len(),
            d == unsigned_digits(s@),
            d =~= s@.subrange(start as int, n as int),
            all_digits(d.take(i - start)),
            v as nat == digits_value(d.take(i - start)),
        decreases n - i,
    {
        let b = s[i];
        if b < 48u8 || b > 57u8 {
            assert(!is_digit(d[i - start]));
            return None;
        }
        let ghost k: int = i - start;
        assert(d.take(k + 1).drop_last() =~= d.take(k));
        assert(d.take(k + 1).last() == b);
        if v > 1844674407370955161u64 || (v == 1844674407370955161u64 && b > 53u8) {
            proof {
                assert(all_digits(d.take(k + 1)));
                assert(digits_value(d.take(k + 1)) == v * 10 + (b - 48) as nat);
                assert(v * 10 + (b - 48) as nat > u64::MAX) by (nonlinear_arith)
                    requires
                        v > 1844674407370955161u64 || (v == 1844674407370955161u64 && b > 53u8),
                        48 <= b <= 57,
                ;
                if all_digits(d) {
                    lemma_digits_value_prefix(d, k + 1);
                }
            }
            return None;
        }
        v = v * 10 + (b - 48u8) as u64;
        i = i + 1;
    }
    assert(d.take(n - start) =~= d);
    Some(v)
}

/// The decimal text of `n` read back as bytes parses to `n`.
pub proof fn lemma_decimal_parses_back(n: u64)
    ensures
        parse_u64(ascii_bytes(decimal(n as nat))) == Some(n),
{
    lemma_decimal_digits(n as nat);
    let b = ascii_bytes(decimal(n as nat));
    assert(b[0] != 43u8);
}

/// The bytes of an ASCII character sequence.
pub open spec fn ascii_bytes(s: Seq<char>) -> Seq<u8> {
    s.map_values(|c: char| c as u8)
}

proof fn lemma_decimal_digits(n: nat)
    ensures
        decimal(n).len() > 0,
        all_digits(ascii_bytes(decimal(n))),
        digits_value(ascii_bytes(decimal(n))) == n,
        is_digit(ascii_bytes(decimal(n))[0]),
    decreases n,
{
    let b = ascii_bytes(decimal(n));
    assert(digit_char(n % 10) as u8 == 48 + n % 10);
    if n < 10 {
        assert(b =~= seq![(48 + n) as u8]);
        assert(b.drop_last() =~= Seq::<u8>::empty());
        assert((48 + n) as u8 as nat == 48 + n);
        assert(digits_value(b) == digits_value(b.drop_last()) * 10 + (b.last() - 48) as nat);
        assert(digits_value(b) == n);
    } else {
        lemma_decimal_digits(n / 10);
        let p = ascii_bytes(decimal(n / 10));
        assert(b =~= p.push((48 + n % 10) as u8));
        assert(b.drop_last() =~= p);
        assert(b.last() == (48 + n % 10) as u8);
        assert(n % 10 < 10);
        assert((48 + n % 10) as u8 as nat == 48 + n % 10);
        assert(digits_value(b) == digits_value(p) * 10 + (b.last() - 48) as nat);
        assert(n == (n / 10) * 10 + n % 10);
        assert(digits_value(b) == n);
    }
}

/// What `String::from_utf8_lossy` makes of `bytes`: the decoded text with every
/// invalid UTF-8 sequence replaced by U+FFFD.
pub uninterp spec fn utf8_lossy(bytes: Seq<u8>) -> Seq<char>;

/// Calls `String::from_utf8_lossy` and takes ownership of the text. Trusted to
/// return exactly `utf8_lossy(bytes)`, and, as std documents, where the bytes
/// are valid UTF-8 nothing is replaced: the text is what they encode. The
/// replacement rules for invalid bytes are std's and are not restated here.
#[verifier::external_body]
pub(crate) fn lossy_text(bytes: &[u8]) -> (s: String)
    ensures
        s@ == utf8_lossy(bytes@),
        vstd::utf8::valid_utf8(bytes@) ==> s@ == vstd::utf8::decode_utf8(bytes@),
{
    String::from_utf8_lossy(bytes).into_owned()
}

/// `parts` joined with `sep` between each neighbouring pair.
pub open spec fn join(parts: Seq<Seq<char>>, sep: Seq<char>) -> Seq<char>
    decreases parts.len(),
{
    if parts.len() == 0 {
        Seq::empty()
    } else if parts.len() == 1 {
        parts[0]
    } else {
        join(parts.drop_last(), sep) + sep + parts.last()
    }
}

/// `sep` occurs in `s` at position `k`.
pub open spec fn occurs_at(s: Seq<char>, sep: Seq<char>, k: int) -> bool {
    0 <= k && k + sep.len() <= s.len() && s.subrange(k, k + sep.len()) == sep
}

/// The pieces of `s` cut at each occurrence of `sep`, found left to right
/// without overlap, with `cur` in front of the first piece.
pub open spec fn split_acc(s: Seq<char>, sep: Seq<char>, cur: Seq<char>) -> Seq<Seq<char>>
    decreases s.len(),
{
    if sep.len() > 0 && occurs_at(s, sep, 0) {
        seq![cur] + split_acc(s.skip(sep.len() as int), sep, Seq::empty())
    } else if s.len() == 0 {
        seq![cur]
    } else {
        split_acc(s.drop_first(), sep, cur.push(s[0]))
    }
}

/// The pieces of `s` between the occurrences of a non-empty `sep`, as
/// `str::split` gives them.
pub open spec fn split(s: Seq<char>, sep: Seq<char>) -> Seq<Seq<char>> {
    split_acc(s, sep, Seq::empty())
}

/// Splitting walks over a stretch `p` in which no occurrence of `sep`
/// starts, adding it to the current piece.
pub proof fn lemma_split_walk(p: Seq<char>, t: Seq<char>, sep: Seq<char>, cur: Seq<char>)
    requires
        sep.len() > 0,
        forall|k: int| 0 <= k < p.len() ==> !#[trigger] occurs_at(p + t, sep, k),
    ensures
        split_acc(p + t, sep, cur) == split_acc(t, sep, cur + p),
    decreases p.len(),
{
    if p.len() == 0 {
        assert(p + t =~= t);
        assert(cur + p =~= cur);
    } else {
        let s = p + t;
        let q = p.drop_first();
        assert(!occurs_at(s, sep, 0));
        assert(s.drop_first() =~= q + t);
        assert(s[0] == p[0]);
        assert forall|k: int| 0 <= k < q.len() implies !#[trigger] occurs_at(q + t, sep, k) by {
            assert(!occurs_at(s, sep, k + 1));
            if k + sep.len() <= (q + t).len() {
                assert((q + t).subrange(k, k + sep.len()) =~= s.subrange(k + 1, k + 1 + sep.len()));
            }
        }
        lemma_split_walk(q, t, sep, cur.push(p[0]));
        assert(cur.push(p[0]) + q =~= cur + p);
    }
}

/// Joining takes the first part, then the separator, then the rest joined.
pub proof fn lemma_join_front(parts: Seq<Seq<char>>, sep: Seq<char>)
    requires
        parts.len() >= 2,
    ensures
        join(parts, sep) == parts[0] + sep + join(parts.drop_first(), sep),
    decreases parts.len(),
{
    let rest = parts.drop_first();
    if parts.len() == 2 {
        assert(parts.drop_last().len() == 1);
        assert(join(parts.drop_last(), sep) == parts[0]);
        assert(rest.len() == 1);
        assert(join(rest, sep) == rest[0]);
    } else {
        let front = parts.drop_last();
        lemma_join_front(front, sep);
        assert(rest.drop_last() =~= front.drop_first());
        assert(rest.last() == parts.last());
        assert(join(rest, sep) == join(rest.drop_last(), sep) + sep + rest.last());
        assert(join(parts, sep) == join(front, sep) + sep + parts.last());
        assert(join(parts, sep) =~= parts[0] + sep + join(rest, sep));
    }
}

/// Lower-cases an ASCII letter byte; every other byte is left alone.
pub open spec fn ascii_lower(b: u8) -> u8 {
    if 65 <= b <= 90 {
        (b + 32) as u8
    } else {
        b
    }
}

/// `s` begins with `prefix` once its ASCII letters are lower-cased.
pub open spec fn starts_with_ignoring_case(s: Seq<u8>, prefix: Seq<u8>) -> bool {
    &&& prefix.len() <= s.len()
    &&& forall|i: int| 0 <= i < prefix.len() ==> ascii_lower(#[trigger] s[i]) == prefix[i]
}

/// Checks `starts_with_ignoring_case`; `prefix` is expected in lower case.
pub fn bytes_start_with_ignoring_case(s: &[u8], prefix: &[u8]) -> (r: bool)
    ensures
        r == starts_with_ignoring_case(s@, prefix@),
{
    if prefix.len() > s.len() {
        return false;
    }
    let mut i: usize = 0;
    while i < prefix.len()
        invariant
            i <= prefix@.len() <= s@.len(),
            forall|j: int| 0 <= j < i ==> ascii_lower(#[trigger] s@[j]) == prefix@[j],
        decreases prefix.len() - i,
    {
        let b = s[i];
        let lower: u8 = if 65u8 <= b && b <= 90u8 { b + 32 } else { b };
        if lower != prefix[i] {
            return false;
        }
        i = i + 1;
    }
    true
}

} // verus!
