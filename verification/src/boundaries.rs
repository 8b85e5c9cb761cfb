//! Pass 1: locating section headers and the content that follows each one.
use vstd::prelude::*;

use crate::matching::{regex_compiles, regex_find_spans, Pattern, PatternError};
use crate::order::{lemma_sort_by_key, lemma_sort_elements, sort_by_key, sorted_by_key, stable_sort, with_key, SortKey};
use crate::sections::{registry, sections, section_views, SectionSpec};

pub mod priority;

use self::priority::{
    first_at_each_position, keep_first_at_each_position, lemma_first_distinct, lemma_first_elements,
    lemma_kept_cover, lemma_kept_from, registry_ordered, starts_increasing,
};

verus! {

/// A located section within the file.
#[derive(Debug, Clone)]
pub struct SectionBoundary {
    /// Index into the section registry
    pub section_idx: usize,
    pub name: String,
    /// Byte offset of the first content byte (after the header line)
    pub start: u64,
    /// Byte offset past the last content byte (exclusive)
    pub end: u64,
    /// 1-based line number of the first content line (after the header line)
    pub line_start: u64,
}

/// One match of a header pattern.
#[derive(Clone, Copy, Debug)]
pub struct HeaderHit {
    /// Offset of the first byte of the match
    pub start: usize,
    /// Offset just past the newline that ends the matched line (or the end of the data)
    pub content_start: usize,
    /// Index of the section whose header matched
    pub section_idx: usize,
}

impl SortKey for HeaderHit {
    open spec fn key_of(&self) -> int {
        self.start as int
    }

    fn sort_key(&self) -> (k: u64) {
        self.start as u64
    }
}

/// The offset just past the first newline at or after `pos`, or the end of
/// the data where there is none.
pub open spec fn line_end(data: Seq<u8>, pos: int) -> int
    decreases data.len() - pos,
{
    if pos >= data.len() {
        data.len() as int
    } else if data[pos] == 10 {
        pos + 1
    } else {
        line_end(data, pos + 1)
    }
}

/// The number of newline bytes in `s`.
pub open spec fn count_newlines(s: Seq<u8>) -> nat
    decreases s.len(),
{
    if s.len() == 0 {
        0
    } else {
        count_newlines(s.drop_last()) + if s.last() == 10 {
            1nat
        } else {
            0nat
        }
    }
}

/// Newlines are counted one per `\n` byte, wherever it stands: none in no
/// bytes, one more for each `\n` appended and none for any other byte, so
/// that two newlines in a row count twice; the count is the number of bytes
/// of `s` equal to `\n`, and counts of two pieces add up.
pub proof fn lemma_count_newlines_counts_each_newline(s: Seq<u8>, t: Seq<u8>, b: u8)
    ensures
        count_newlines(Seq::<u8>::empty()) == 0,
        count_newlines(s.push(b)) == count_newlines(s) + (if b == 10 {
            1int
        } else {
            0int
        }),
        count_newlines(s) == s.filter(|x: u8| x == 10).len(),
        count_newlines(s + t) == count_newlines(s) + count_newlines(t),
    decreases s.len() + t.len(),
{
    assert(s.push(b).drop_last() =~= s);
    if s.len() > 0 {
        lemma_count_newlines_counts_each_newline(s.drop_last(), Seq::empty(), b);
        s.drop_last().lemma_filter_push(s.last(), |x: u8| x == 10);
        assert(s.drop_last().push(s.last()) =~= s);
    } else {
        reveal(Seq::filter);
        assert(s.filter(|x: u8| x == 10) =~= Seq::<u8>::empty());
    }
    if t.len() > 0 {
        lemma_count_newlines_counts_each_newline(s, t.drop_last(), b);
        assert((s + t).drop_last() =~= s + t.drop_last());
        assert((s + t).last() == t.last());
    } else {
        assert(s + t =~= s);
    }
}

/// The source text of every registered header pattern.
pub open spec fn header_sources(specs: Seq<SectionSpec>) -> Seq<Seq<char>> {
    specs.map_values(|s: SectionSpec| s.header_pattern)
}

/// The hits of header pattern `idx`, from its match spans, shifted by `base`.
pub open spec fn pattern_hits(data: Seq<u8>, base: int, idx: int, spans: Seq<(usize, usize)>) -> Seq<HeaderHit> {
    spans.map_values(
        |m: (usize, usize)|
            HeaderHit {
                start: (base + m.0) as usize,
                content_start: (base + line_end(data, m.1 as int)) as usize,
                section_idx: idx as usize,
            },
    )
}

/// The hits of every header pattern over `data`, pattern by pattern, each in
/// match order, offsets shifted by `base`.
pub open spec fn header_hits(data: Seq<u8>, base: int, headers: Seq<Seq<char>>) -> Seq<HeaderHit>
    decreases headers.len(),
{
    if headers.len() == 0 {
        Seq::empty()
    } else {
        header_hits(data, base, headers.drop_last()) + pattern_hits(
            data,
            base,
            headers.len() - 1,
            regex_find_spans(headers.last(), data),
        )
    }
}

/// Computes `line_end`.
fn find_line_end(data: &[u8], pos: usize) -> (r: usize)
    requires
        pos <= data@.len(),
    ensures
        r == line_end(data@, pos as int),
{
    let mut p = pos;
    while p < data.len()
        invariant
            pos <= p <= data@.len(),
            line_end(data@, pos as int) == line_end(data@, p as int),
        decreases data.len() - p,
    {
        if data[p] == 10u8 {
            return p + 1;
        }
        p = p + 1;
    }
    p
}

/// `line_end` lies after `pos`, within the data, and just past a newline
/// unless it is the end of the data.
pub proof fn lemma_line_end(data: Seq<u8>, pos: int)
    requires
        0 <= pos <= data.len(),
    ensures
        pos <= line_end(data, pos) <= data.len(),
        line_end(data, pos) == data.len() || (line_end(data, pos) > pos && data[line_end(data, pos) - 1] == 10),
    decreases data.len() - pos,
{
    if pos < data.len() && data[pos] != 10 {
        lemma_line_end(data, pos + 1);
    }
}

/// Compiles the header pattern of every registered section, in order.
pub fn compile_header_patterns() -> (r: Result<Vec<Pattern>, PatternError>)
    ensures
        r is Ok <==> headers_compile(registry()),
        r matches Ok(v) ==> v@.len() == registry().len() && forall|i: int|
            0 <= i < v@.len() ==> (#[trigger] v@[i])@ == registry()[i].header_pattern,
        r matches Err(e) ==> exists|i: int|
            0 <= i < registry().len() && !regex_compiles(#[trigger] registry()[i].header_pattern) && (forall|m: int|
                0 <= m < i ==> regex_compiles(#[trigger] registry()[m].header_pattern)) && e.pattern@
                == registry()[i].header_pattern,
{
    let defs = sections();
    let mut out: Vec<Pattern> = Vec::new();
    let mut i: usize = 0;
    while i < defs.len()
        invariant
            section_views(defs@) == registry(),
            i <= defs@.len(),
            out@.len() == i,
            forall|m: int| 0 <= m < i ==> regex_compiles(#[trigger] registry()[m].header_pattern),
            forall|m: int| 0 <= m < i ==> (#[trigger] out@[m])@ == registry()[m].header_pattern,
        decreases defs.len() - i,
    {
        assert(registry()[i as int] == defs@[i as int]@);
        match Pattern::compile(defs[i].header_pattern) {
            Ok(p) => out.push(p),
            Err(e) => {
                assert(!regex_compiles(registry()[i as int].header_pattern));
                return Err(e);
            },
        }
        i = i + 1;
    }
    Ok(out)
}

/// Every registered header pattern compiles.
pub open spec fn headers_compile(specs: Seq<SectionSpec>) -> bool {
    forall|i: int| 0 <= i < specs.len() ==> regex_compiles(#[trigger] specs[i].header_pattern)
}

/// The views of a list of patterns.
pub open spec fn pattern_views(ps: Seq<Pattern>) -> Seq<Seq<char>> {
    ps.map_values(|p: Pattern| p@)
}

/// Every span lies within data of `len` bytes.
pub open spec fn spans_in(spans: Seq<(usize, usize)>, len: int) -> bool {
    forall|i: int| 0 <= i < spans.len() ==> (#[trigger] spans[i]).0 <= spans[i].1 <= len
}

/// The hits of header pattern `idx` from its match spans in `data`: each
/// match's start and the end of its line, shifted by `base`.
pub fn hits_from_spans(data: &[u8], base: usize, idx: usize, spans: &[(usize, usize)]) -> (r: Vec<HeaderHit>)
    requires
        base + data@.len() <= usize::MAX,
        spans_in(spans@, data@.len() as int),
    ensures
        r@ == pattern_hits(data@, base as int, idx as int, spans@),
        hits_well_formed(data@, base as int, idx + 1, r@),
{
    let mut hits: Vec<HeaderHit> = Vec::new();
    let mut k: usize = 0;
    while k < spans.len()
        invariant
            base + data@.len() <= usize::MAX,
            spans_in(spans@, data@.len() as int),
            k <= spans@.len(),
            hits@ == pattern_hits(data@, base as int, idx as int, spans@.take(k as int)),
            hits_well_formed(data@, base as int, idx + 1, hits@),
        decreases spans.len() - k,
    {
        let (s, e) = spans[k];
        let c = find_line_end(data, e);
        proof {
            lemma_line_end(data@, e as int);
        }
        let hit = HeaderHit { start: base + s, content_start: base + c, section_idx: idx };
        hits.push(hit);
        assert(spans@.take(k + 1) =~= spans@.take(k as int).push(spans@[k as int]));
        assert(pattern_hits(data@, base as int, idx as int, spans@.take(k + 1)) =~= pattern_hits(
            data@,
            base as int,
            idx as int,
            spans@.take(k as int),
        ).push(hit));
        k = k + 1;
    }
    assert(spans@.take(k as int) =~= spans@);
    hits
}

/// Finds every header match in `data`, pattern by pattern. Offsets are
/// reported relative to `base`, so that `data` may be a window of a larger
/// buffer starting at `base`.
pub fn find_header_hits(data: &[u8], base: usize, headers: &[Pattern]) -> (r: Vec<HeaderHit>)
    requires
        base + data@.len() <= usize::MAX,
    ensures
        r@ == header_hits(data@, base as int, pattern_views(headers@)),
        hits_well_formed(data@, base as int, headers@.len() as int, r@),
{
    let ghost srcs = pattern_views(headers@);
    let mut hits: Vec<HeaderHit> = Vec::new();
    let mut idx: usize = 0;
    while idx < headers.len()
        invariant
            base + data@.len() <= usize::MAX,
            srcs == pattern_views(headers@),
            idx <= headers@.len(),
            hits@ == header_hits(data@, base as int, srcs.take(idx as int)),
            hits_well_formed(data@, base as int, idx as int, hits@),
        decreases headers.len() - idx,
    {
        let spans = headers[idx].find_all(data);
        let mut found = hits_from_spans(data, base, idx, &spans);
        let ghost before = hits@;
        let ghost f = found@;
        hits.append(&mut found);
        proof {
            assert forall|i: int| 0 <= i < hits@.len() implies {
                let h = #[trigger] hits@[i];
                &&& h.section_idx < idx + 1
                &&& base <= h.start <= h.content_start <= base + data@.len()
                &&& (h.content_start == base + data@.len() || (h.content_start > base && data@[h.content_start
                    - base - 1] == 10))
            } by {
                if i < before.len() {
                    assert(hits@[i] == before[i]);
                } else {
                    assert(hits@[i] == f[i - before.len()]);
                }
            }
        }
        assert(srcs.take(idx + 1).drop_last() =~= srcs.take(idx as int));
        assert(srcs.take(idx + 1).last() == headers@[idx as int]@);
        assert(hits@ =~= before + f);
        idx = idx + 1;
    }
    assert(srcs.take(idx as int) =~= srcs);
    hits
}

/// Every hit names one of `n` sections, and its content starts within the
/// data (which begins at `base`), no earlier than the match, and just past a
/// newline unless at the end of the data.
pub open spec fn hits_well_formed(data: Seq<u8>, base: int, n: int, hits: Seq<HeaderHit>) -> bool {
    forall|i: int|
        0 <= i < hits.len() ==> {
            let h = #[trigger] hits[i];
            &&& h.section_idx < n
            &&& base <= h.start <= h.content_start <= base + data.len()
            &&& (h.content_start == base + data.len() || (h.content_start > base && data[h.content_start
                - base - 1] == 10))
        }
}

/// Content starts never go backwards along the hits.
pub open spec fn content_starts_ordered(hits: Seq<HeaderHit>) -> bool {
    forall|i: int, j: int| 0 <= i <= j < hits.len() ==> hits[i].content_start <= hits[j].content_start
}

/// `b` is the boundary the `i`-th of the ordered `hits` makes: its content
/// runs from just past the header line to the next header's match, or to the
/// end of the data for the last one.
pub open spec fn boundary_from_hit(data: Seq<u8>, hits: Seq<HeaderHit>, i: int, b: SectionBoundary) -> bool {
    &&& b.section_idx == hits[i].section_idx
    &&& b.name@ == registry()[hits[i].section_idx as int].name
    &&& b.start == hits[i].content_start
    &&& b.end == (if i + 1 < hits.len() {
        hits[i + 1].start as int
    } else {
        data.len() as int
    })
    &&& b.line_start == count_newlines(data.take(hits[i].content_start as int)) + 1
}

/// `bs` holds one boundary per hit, in order.
pub open spec fn boundaries_from_hits(data: Seq<u8>, hits: Seq<HeaderHit>, bs: Seq<SectionBoundary>) -> bool {
    &&& bs.len() == hits.len()
    &&& forall|i: int| 0 <= i < bs.len() ==> boundary_from_hit(data, hits, i, #[trigger] bs[i])
}

/// The hits of all registered headers over `data`, ordered by position;
/// where several headers match at one position, only the hit of the section
/// listed first in the registry is kept.
pub open spec fn scanned_hits(data: Seq<u8>) -> Seq<HeaderHit> {
    first_at_each_position(sort_by_key(header_hits(data, 0, header_sources(registry()))))
}

/// The inputs `scan_boundaries` handles: every header pattern compiles, the
/// data's length leaves room for a 1-based line number, and content starts
/// do not go backwards (they could where one header match runs past the
/// line of the next one).
pub open spec fn scan_accepts(data: Seq<u8>) -> bool {
    &&& headers_compile(registry())
    &&& data.len() < u64::MAX
    &&& content_starts_ordered(scanned_hits(data))
}

/// `bs` is what scanning `data` for section boundaries gives.
pub open spec fn scan_result(data: Seq<u8>, bs: Seq<SectionBoundary>) -> bool {
    &&& boundaries_from_hits(data, scanned_hits(data), bs)
    &&& sorted_by_key(scanned_hits(data))
    &&& starts_increasing(scanned_hits(data))
    &&& hits_well_formed(data, 0, registry().len() as int, scanned_hits(data))
    &&& content_starts_ordered(scanned_hits(data))
}

/// Builds the boundary list from hits ordered by position: each section ends
/// where the next header starts. Newlines are counted with a running
/// counter, so the whole pass is linear.
pub fn build_boundaries(data: &[u8], hits: &[HeaderHit]) -> (r: Vec<SectionBoundary>)
    requires
        data@.len() < u64::MAX,
        forall|i: int|
            0 <= i < hits@.len() ==> (#[trigger] hits@[i]).section_idx < registry().len()
                && hits@[i].content_start <= data@.len(),
        content_starts_ordered(hits@),
    ensures
        boundaries_from_hits(data@, hits@, r@),
{
    let defs = sections();
    let mut boundaries: Vec<SectionBoundary> = Vec::new();
    let mut newlines_seen: u64 = 0;
    let mut scan_pos: usize = 0;
    let mut i: usize = 0;
    while i < hits.len()
        invariant
            section_views(defs@) == registry(),
            data@.len() < u64::MAX,
            forall|k: int|
                0 <= k < hits@.len() ==> (#[trigger] hits@[k]).section_idx < registry().len()
                    && hits@[k].content_start <= data@.len(),
            content_starts_ordered(hits@),
            i <= hits@.len(),
            scan_pos <= data@.len(),
            i > 0 ==> scan_pos == hits@[i - 1].content_start,
            i == 0 ==> scan_pos == 0,
            newlines_seen == count_newlines(data@.take(scan_pos as int)),
            newlines_seen <= scan_pos,
            boundaries@.len() == i,
            forall|k: int| 0 <= k < i ==> boundary_from_hit(data@, hits@, k, #[trigger] boundaries@[k]),
        decreases hits.len() - i,
    {
        let hit = hits[i];
        let content_end: usize = if i + 1 < hits.len() {
            hits[i + 1].start
        } else {
            data.len()
        };
        let content_start = hit.content_start;
        let mut p = scan_pos;
        while p < content_start
            invariant
                scan_pos <= p <= content_start <= data@.len(),
                data@.len() < u64::MAX,
                newlines_seen == count_newlines(data@.take(p as int)),
                newlines_seen <= p,
            decreases content_start - p,
        {
            assert(data@.take(p + 1).drop_last() =~= data@.take(p as int));
            if data[p] == 10u8 {
                newlines_seen = newlines_seen + 1;
            }
            p = p + 1;
        }
        scan_pos = content_start;
        let idx = hit.section_idx;
        assert(registry()[idx as int] == defs@[idx as int]@);
        let b = SectionBoundary {
            section_idx: idx,
            name: defs[idx].name.to_owned(),
            start: content_start as u64,
            end: content_end as u64,
            line_start: newlines_seen + 1,
        };
        boundaries.push(b);
        i = i + 1;
    }
    boundaries
}

/// Scans `data` for section boundaries: the content of each section runs
/// from just past its header line to the start of the next header, or to the
/// end of the data. Boundaries come in order of appearance.
pub fn scan_boundaries(data: &[u8]) -> (r: Vec<SectionBoundary>)
    requires
        scan_accepts(data@),
    ensures
        scan_result(data@, r@),
{
    let headers = match compile_header_patterns() {
        Ok(h) => h,
        Err(_) => {
            return Vec::new();
        },
    };
    assert(pattern_views(headers@) =~= header_sources(registry()));
    proof {
        // a slice's length fits in usize
        assert(data@.len() == data.len());
    }
    let mut hits = find_header_hits(data, 0, headers.as_slice());
    stable_sort(&mut hits);
    let hits = keep_first_at_each_position(hits.as_slice());
    proof {
        lemma_scanned_hits_well_formed(data@);
    }
    build_boundaries(data, hits.as_slice())
}

/// The scanned hits are ordered by position, one per position, and each is
/// a well-formed hit of some registered header.
proof fn lemma_scanned_hits_well_formed(data: Seq<u8>)
    requires
        hits_well_formed(data, 0, registry().len() as int, header_hits(data, 0, header_sources(registry()))),
    ensures
        sorted_by_key(scanned_hits(data)),
        starts_increasing(scanned_hits(data)),
        hits_well_formed(data, 0, registry().len() as int, scanned_hits(data)),
{
    let unsorted = header_hits(data, 0, header_sources(registry()));
    let sorted = sort_by_key(unsorted);
    lemma_sort_by_key(unsorted);
    lemma_sort_elements(unsorted);
    lemma_first_distinct(sorted);
    lemma_first_elements(sorted);
    let kept = scanned_hits(data);
    assert forall|i: int| 0 <= i < kept.len() implies hits_well_formed_at(data, registry().len() as int, kept, i) by {
        let j = choose|j: int| 0 <= j < sorted.len() && sorted[j] == #[trigger] kept[i];
        let k = choose|k: int| 0 <= k < unsorted.len() && unsorted[k] == #[trigger] sorted[j];
        assert(hits_well_formed_at(data, registry().len() as int, unsorted, k));
    }
}

/// The `i`-th hit satisfies `hits_well_formed` (for data starting at 0).
pub open spec fn hits_well_formed_at(data: Seq<u8>, n: int, hits: Seq<HeaderHit>, i: int) -> bool {
    let h = hits[i];
    &&& h.section_idx < n
    &&& 0 <= h.start <= h.content_start <= data.len()
    &&& (h.content_start == data.len() || (h.content_start > 0 && data[h.content_start - 1] == 10))
}

/// Checks `content_starts_ordered` by comparing neighbours.
pub fn content_starts_in_order(hits: &[HeaderHit]) -> (r: bool)
    ensures
        r == content_starts_ordered(hits@),
{
    let mut i: usize = 1;
    if hits.len() == 0 {
        return true;
    }
    while i < hits.len()
        invariant
            1 <= i <= hits@.len(),
            forall|a: int, b: int| 0 <= a <= b < i ==> hits@[a].content_start <= hits@[b].content_start,
        decreases hits.len() - i,
    {
        if hits[i - 1].content_start > hits[i].content_start {
            return false;
        }
        i = i + 1;
    }
    true
}

/// Scans `data` like `scan_boundaries` where it accepts the input, and
/// returns `None` where it does not: a header pattern fails to compile, the
/// data is too long for line numbers, or content starts go backwards.
pub fn try_scan_boundaries(data: &[u8]) -> (r: Option<Vec<SectionBoundary>>)
    ensures
        r is Some <==> scan_accepts(data@),
        r matches Some(bs) ==> scan_result(data@, bs@),
{
    let headers = match compile_header_patterns() {
        Ok(h) => h,
        Err(_) => {
            return None;
        },
    };
    let len = data.len();
    if len as u64 == u64::MAX {
        return None;
    }
    assert(pattern_views(headers@) =~= header_sources(registry()));
    let mut hits = find_header_hits(data, 0, headers.as_slice());
    stable_sort(&mut hits);
    let hits = keep_first_at_each_position(hits.as_slice());
    if !content_starts_in_order(hits.as_slice()) {
        return None;
    }
    Some(scan_boundaries(data))
}

/// More bytes never hold fewer newlines.
pub proof fn lemma_count_newlines_prefix(s: Seq<u8>, i: int, j: int)
    requires
        0 <= i <= j <= s.len(),
    ensures
        count_newlines(s.take(i)) <= count_newlines(s.take(j)),
    decreases j - i,
{
    if i < j {
        lemma_count_newlines_prefix(s, i, j - 1);
        assert(s.take(j).drop_last() =~= s.take(j - 1));
    }
}

/// Sections do not overlap: each one ends no later than the next one's
/// content starts (the next header line lies between them).
pub proof fn lemma_sections_do_not_overlap(data: Seq<u8>, bs: Seq<SectionBoundary>)
    requires
        scan_result(data, bs),
    ensures
        forall|i: int| 0 <= i < bs.len() - 1 ==> #[trigger] bs[i].end <= bs[i + 1].start,
{
    let hits = scanned_hits(data);
    assert forall|i: int| 0 <= i < bs.len() - 1 implies #[trigger] bs[i].end <= bs[i + 1].start by {
        assert(boundary_from_hit(data, hits, i, bs[i]));
        assert(boundary_from_hit(data, hits, i + 1, bs[i + 1]));
        assert(hits_well_formed_at(data, registry().len() as int, hits, i + 1));
    }
}

/// The last section runs to the end of the data.
pub proof fn lemma_last_section_reaches_end(data: Seq<u8>, bs: Seq<SectionBoundary>)
    requires
        scan_result(data, bs),
        bs.len() > 0,
    ensures
        bs.last().end == data.len(),
{
    assert(boundary_from_hit(data, scanned_hits(data), bs.len() - 1, bs[bs.len() - 1]));
}

/// Section content begins at the start of a line: just past the newline
/// that ends the header line, or at the end of the data. Nothing before the
/// first header (a preamble) is part of any section, and in non-empty data
/// no section starts at byte 0.
pub proof fn lemma_content_starts_after_header_line(data: Seq<u8>, bs: Seq<SectionBoundary>)
    requires
        scan_result(data, bs),
    ensures
        forall|i: int|
            0 <= i < bs.len() ==> #[trigger] bs[i].start == data.len() || (bs[i].start > 0 && data[bs[i].start
                - 1] == 10),
        forall|i: int| 0 <= i < bs.len() && data.len() > 0 ==> #[trigger] bs[i].start > 0,
        forall|i: int| 0 <= i < bs.len() ==> #[trigger] bs[i].start >= scanned_hits(data)[i].start,
{
    let hits = scanned_hits(data);
    assert forall|i: int| 0 <= i < bs.len() implies #[trigger] bs[i].start == data.len() || (bs[i].start > 0
        && data[bs[i].start - 1] == 10) by {
        assert(boundary_from_hit(data, hits, i, bs[i]));
        assert(hits_well_formed_at(data, registry().len() as int, hits, i));
    }
    assert forall|i: int| 0 <= i < bs.len() implies #[trigger] bs[i].start >= scanned_hits(data)[i].start by {
        assert(boundary_from_hit(data, hits, i, bs[i]));
        assert(hits_well_formed_at(data, registry().len() as int, hits, i));
    }
}

/// Boundaries come in order of appearance: starts, ends and line numbers
/// never decrease, and every offset lies within the data.
pub proof fn lemma_boundaries_in_order(data: Seq<u8>, bs: Seq<SectionBoundary>)
    requires
        scan_result(data, bs),
    ensures
        forall|i: int, j: int| 0 <= i <= j < bs.len() ==> #[trigger] bs[i].start <= #[trigger] bs[j].start,
        forall|i: int, j: int| 0 <= i <= j < bs.len() ==> #[trigger] bs[i].end <= #[trigger] bs[j].end,
        forall|i: int, j: int| 0 <= i <= j < bs.len() ==> #[trigger] bs[i].line_start <= #[trigger] bs[j].line_start,
        forall|i: int| 0 <= i < bs.len() ==> #[trigger] bs[i].start <= data.len() && bs[i].end <= data.len(),
        forall|i: int|
            0 <= i < bs.len() ==> #[trigger] bs[i].section_idx < registry().len() && bs[i].name@
                == registry()[bs[i].section_idx as int].name,
{
    let hits = scanned_hits(data);
    assert forall|i: int, j: int| 0 <= i <= j < bs.len() implies #[trigger] bs[i].start <= #[trigger] bs[j].start
        && bs[i].end <= bs[j].end && bs[i].line_start <= bs[j].line_start by {
        assert(boundary_from_hit(data, hits, i, bs[i]));
        assert(boundary_from_hit(data, hits, j, bs[j]));
        assert(hits_well_formed_at(data, registry().len() as int, hits, i));
        assert(hits_well_formed_at(data, registry().len() as int, hits, j));
        lemma_count_newlines_prefix(data, hits[i].content_start as int, hits[j].content_start as int);
        if j + 1 < bs.len() {
            assert(hits_well_formed_at(data, registry().len() as int, hits, j + 1));
        }
        if i + 1 < bs.len() {
            assert(hits_well_formed_at(data, registry().len() as int, hits, i + 1));
        }
    }
    assert forall|i: int| 0 <= i < bs.len() implies #[trigger] bs[i].start <= data.len() && bs[i].end
        <= data.len() by {
        assert(boundary_from_hit(data, hits, i, bs[i]));
        assert(hits_well_formed_at(data, registry().len() as int, hits, i));
        if i + 1 < bs.len() {
            assert(hits_well_formed_at(data, registry().len() as int, hits, i + 1));
        }
    }
    assert forall|i: int| 0 <= i < bs.len() implies #[trigger] bs[i].section_idx < registry().len()
        && bs[i].name@ == registry()[bs[i].section_idx as int].name by {
        assert(boundary_from_hit(data, hits, i, bs[i]));
        assert(hits_well_formed_at(data, registry().len() as int, hits, i));
    }
}

/// Before ordering, hits come pattern by pattern in registry order.
proof fn lemma_header_hits_in_registry_order(data: Seq<u8>, base: int, headers: Seq<Seq<char>>)
    requires
        headers.len() <= usize::MAX,
    ensures
        forall|i: int|
            0 <= i < header_hits(data, base, headers).len() ==> (#[trigger] header_hits(data, base, headers)[i]).section_idx
                < headers.len(),
        forall|i: int, j: int|
            0 <= i <= j < header_hits(data, base, headers).len() ==> (#[trigger] header_hits(data, base, headers)[i]).section_idx
                <= (#[trigger] header_hits(data, base, headers)[j]).section_idx,
    decreases headers.len(),
{
    if headers.len() > 0 {
        let rest = headers.drop_last();
        lemma_header_hits_in_registry_order(data, base, rest);
        let a = header_hits(data, base, rest);
        let b = pattern_hits(data, base, headers.len() - 1, regex_find_spans(headers.last(), data));
        let all = header_hits(data, base, headers);
        assert(all == a + b);
        assert forall|i: int| 0 <= i < all.len() implies (#[trigger] all[i]).section_idx < headers.len() by {
            if i < a.len() {
                assert(all[i] == a[i]);
            } else {
                assert(all[i] == b[i - a.len()]);
            }
        }
        assert forall|i: int, j: int| 0 <= i <= j < all.len() implies (#[trigger] all[i]).section_idx
            <= (#[trigger] all[j]).section_idx by {
            if j < a.len() {
                assert(all[i] == a[i]);
                assert(all[j] == a[j]);
            } else if i >= a.len() {
                assert(all[i] == b[i - a.len()]);
                assert(all[j] == b[j - a.len()]);
            } else {
                assert(all[i] == a[i]);
                assert(all[j] == b[j - a.len()]);
                assert(b[j - a.len()].section_idx == headers.len() - 1);
            }
        }
    }
}

/// One section per header position, the first in the registry: of all the
/// header matches `hh`, the scan keeps exactly one hit per position (their
/// positions strictly increase), and at the position of every match it keeps
/// a hit whose section is listed no later in the registry; every kept hit is
/// one of the matches.
#[verifier::spinoff_prover]
#[verifier::rlimit(40)]
pub proof fn lemma_first_registry_entry_wins(data: Seq<u8>)
    ensures
        ({
            let hh = header_hits(data, 0, header_sources(registry()));
            let kept = first_at_each_position(sort_by_key(hh));
            &&& scanned_hits(data) == kept
            &&& starts_increasing(kept)
            &&& forall|j: int|
                0 <= j < hh.len() ==> exists|m: int|
                    0 <= m < kept.len() && (#[trigger] kept[m]).start == (#[trigger] hh[j]).start
                        && kept[m].section_idx <= hh[j].section_idx
            &&& forall|m: int| 0 <= m < kept.len() ==> exists|j: int| 0 <= j < hh.len() && hh[j] == #[trigger] kept[m]
        }),
{
    let hh = header_hits(data, 0, header_sources(registry()));
    lemma_header_hits_in_registry_order(data, 0, header_sources(registry()));
    assert(registry_ordered(hh));
    lemma_sort_by_key(hh);
    lemma_first_distinct(sort_by_key(hh));
    lemma_kept_cover(hh);
    lemma_kept_from(hh);
}

} // verus!
