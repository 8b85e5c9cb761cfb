//! Remote pipeline: the source is streamed to a local staging file while
//! section boundaries are scanned behind the writer, and each section is
//! handed out as soon as its end is known. This module holds the decisions
//! of that loop (`plan_tick`, `ScanBehind::step`); the copying, mapping,
//! waiting and parsing stay with the caller, which feeds every tick's bytes
//! to `ScanBehind::step`.
use vstd::prelude::*;

use crate::boundaries::priority::{
    first_at_each_position, keep_first_at_each_position, lemma_first_distinct, lemma_first_elements,
    lemma_first_of_distinct, lemma_first_prefix, starts_increasing,
};
use crate::boundaries::{
    boundaries_from_hits, boundary_from_hit, count_newlines, scan_result, scanned_hits, find_header_hits, header_hits, header_sources, hits_well_formed,
    lemma_count_newlines_prefix, pattern_views, HeaderHit, SectionBoundary,
};
use crate::matching::Pattern;
use crate::order::{lemma_sort_by_key, lemma_sort_elements, sort_by_key, sorted_by_key, stable_sort};
use crate::sections::{registry, section_views, sections};

verus! {

/// Why a scan step stopped.
#[derive(Debug, Clone, Copy, PartialEq, Eq, Structural)]
pub enum ScanError {
    /// The content of a section to hand out would start before the content
    /// of the previous one (a header match ran past the line of the next)
    ContentOutOfOrder,
}

/// The offset just past the last newline in `data[from..to]`, or `from`
/// where there is none.
pub open spec fn last_line_end(data: Seq<u8>, from: int, to: int) -> int
    decreases to - from,
{
    if to <= from {
        from
    } else if data[to - 1] == 10 {
        to
    } else {
        last_line_end(data, from, to - 1)
    }
}

/// Where this tick's scan window ends: at the end of the written bytes once
/// writing is done, else just past the last complete line, so that no
/// header line is split between two windows.
pub open spec fn window_end(data: Seq<u8>, cursor: int, done: bool) -> int {
    if done {
        data.len() as int
    } else {
        last_line_end(data, cursor, data.len() as int)
    }
}

/// The hits found in the window `data[cursor..end]`, ordered by position.
pub open spec fn window_hits(data: Seq<u8>, cursor: int, end: int) -> Seq<HeaderHit> {
    if end > cursor {
        sort_by_key(header_hits(data.subrange(cursor, end), cursor, header_sources(registry())))
    } else {
        Seq::empty()
    }
}

/// How many hits have a known end: all of them once writing is done, else
/// all but the last (whose section may still grow).
pub open spec fn complete_count(n: int, done: bool) -> int {
    if done {
        n
    } else if n > 0 {
        n - 1
    } else {
        0
    }
}

/// Content starts of `hits[from..to]` do not go backwards, and none lies before `pos`.
pub open spec fn dispatch_ordered(hits: Seq<HeaderHit>, from: int, to: int, pos: int) -> bool {
    &&& forall|k: int| from <= k < to ==> pos <= (#[trigger] hits[k]).content_start
    &&& forall|k: int, m: int| from <= k <= m < to ==> #[trigger] hits[k].content_start <= #[trigger] hits[m].content_start
}

/// State of the scan that runs behind the writer.
pub struct ScanBehind {
    /// Offset up to which the written bytes were scanned for headers; always
    /// just past a newline, or the end of the data once writing is done
    scan_cursor: usize,
    /// Every header hit found so far, ordered by position
    all_hits: Vec<HeaderHit>,
    /// Number of hits, from the front of `all_hits`, handed out as sections
    dispatched: usize,
    /// Newlines in the bytes before `newlines_pos`
    newlines_seen: u64,
    /// Content start of the last section handed out (0 before the first)
    newlines_pos: usize,
    /// The bytes the last step was given
    seen: Ghost<Seq<u8>>,
}

impl ScanBehind {
    pub closed spec fn cursor(&self) -> int {
        self.scan_cursor as int
    }

    pub closed spec fn hits(&self) -> Seq<HeaderHit> {
        self.all_hits@
    }

    pub closed spec fn dispatched_count(&self) -> int {
        self.dispatched as int
    }

    /// The bytes this scan has been given so far.
    pub closed spec fn scanned(&self) -> Seq<u8> {
        self.seen@
    }

    /// Offset from which newlines are still to be counted.
    pub closed spec fn counted_to(&self) -> int {
        self.newlines_pos as int
    }

    /// The internal consistency every step keeps.
    pub closed spec fn wf(&self) -> bool {
        &&& self.scan_cursor <= self.seen@.len()
        &&& self.dispatched <= self.all_hits@.len()
        &&& self.newlines_pos <= self.scan_cursor
        &&& self.newlines_seen == count_newlines(self.seen@.take(self.newlines_pos as int))
        &&& self.newlines_seen <= self.newlines_pos
        &&& sorted_by_key(self.all_hits@)
        &&& starts_increasing(self.all_hits@)
        &&& forall|k: int|
            0 <= k < self.all_hits@.len() ==> {
                let h = #[trigger] self.all_hits@[k];
                &&& h.section_idx < registry().len()
                &&& h.start <= h.content_start <= self.scan_cursor
            }
        &&& self.dispatched > 0 ==> self.newlines_pos == self.all_hits@[self.dispatched - 1].content_start
        &&& self.dispatched == 0 ==> self.newlines_pos == 0
    }

    /// A scan that has seen nothing yet.
    pub fn new() -> (r: Self)
        ensures
            r.wf(),
            r.cursor() == 0,
            r.hits().len() == 0,
            r.dispatched_count() == 0,
            r.scanned().len() == 0,
    {
        ScanBehind {
            scan_cursor: 0,
            all_hits: Vec::new(),
            dispatched: 0,
            newlines_seen: 0,
            newlines_pos: 0,
            seen: Ghost(Seq::empty()),
        }
    }

    /// Offset up to which the written bytes have been scanned.
    pub fn scanned_to(&self) -> (r: usize)
        ensures
            r == self.cursor(),
    {
        self.scan_cursor
    }

    /// How many sections have been handed out.
    pub fn dispatched(&self) -> (r: usize)
        ensures
            r == self.dispatched_count(),
    {
        self.dispatched
    }

    /// How many header hits have been found.
    pub fn hit_count(&self) -> (r: usize)
        ensures
            r == self.hits().len(),
    {
        self.all_hits.len()
    }

    /// Scans the window that the bytes written past the cursor open and
    /// records its hits; nothing is handed out.
    fn absorb_window(&mut self, data: &[u8], done: bool, headers: &[Pattern]) -> (end: usize)
        requires
            old(self).wf(),
            old(self).scanned().len() <= data@.len(),
            data@.take(old(self).scanned().len() as int) == old(self).scanned(),
            data@.len() > old(self).cursor(),
            pattern_views(headers@) == header_sources(registry()),
        ensures
            end == window_end(data@, old(self).cursor(), done),
            old(self).cursor() <= end <= data@.len(),
            final(self).wf(),
            final(self).scanned() == data@,
            final(self).cursor() == end,
            final(self).hits() == first_at_each_position(
                old(self).hits() + window_hits(data@, old(self).cursor(), end as int),
            ),
            old(self).hits().len() <= final(self).hits().len(),
            final(self).hits().take(old(self).hits().len() as int) == old(self).hits(),
            final(self).dispatched_count() == old(self).dispatched_count(),
            final(self).counted_to() == old(self).counted_to(),
    {
        let written = data.len();
        let cursor = self.scan_cursor;
        let ghost old_hits = self.all_hits@;
        let ghost old_seen = self.seen@;
        let end = if done {
            written
        } else {
            last_newline_end(data, cursor, written)
        };
        if end > cursor {
            let window = &data[cursor..end];
            let mut found = find_header_hits(window, cursor, headers);
            let ghost unsorted = found@;
            stable_sort(&mut found);
            proof {
                lemma_sort_by_key(unsorted);
                lemma_sort_elements(unsorted);
                assert(window@ == data@.subrange(cursor as int, end as int));
                assert forall|k: int| 0 <= k < found@.len() implies {
                    let h = #[trigger] found@[k];
                    &&& h.section_idx < registry().len()
                    &&& cursor <= h.start <= h.content_start <= end
                } by {
                    let j = choose|j: int| 0 <= j < unsorted.len() && unsorted[j] == #[trigger] sort_by_key(unsorted)[k];
                    assert(hits_well_formed(window@, cursor as int, headers@.len() as int, unsorted));
                    assert(unsorted[j] == found@[k]);
                }
            }
            self.all_hits.append(&mut found);
            proof {
                let all = self.all_hits@;
                assert forall|i: int, j: int| 0 <= i <= j < all.len() implies all[i].start <= all[j].start by {
                    if i < old_hits.len() && j >= old_hits.len() {
                        assert(all[i] == old_hits[i]);
                        assert(all[j] == sort_by_key(unsorted)[j - old_hits.len()]);
                    } else if i >= old_hits.len() {
                        assert(all[i] == sort_by_key(unsorted)[i - old_hits.len()]);
                        assert(all[j] == sort_by_key(unsorted)[j - old_hits.len()]);
                    } else {
                        assert(all[i] == old_hits[i]);
                        assert(all[j] == old_hits[j]);
                    }
                }
                assert forall|k: int| 0 <= k < all.len() implies {
                    let h = #[trigger] all[k];
                    &&& h.section_idx < registry().len()
                    &&& h.start <= h.content_start <= end
                } by {
                    if k >= old_hits.len() {
                        assert(all[k] == sort_by_key(unsorted)[k - old_hits.len()]);
                    } else {
                        assert(all[k] == old_hits[k]);
                    }
                }
            }
        }
        let ghost window = window_hits(data@, cursor as int, end as int);
        let ghost combined = self.all_hits@;
        proof {
            assert(combined =~= old_hits + window);
            assert(sorted_by_key(combined));
        }
        let kept = keep_first_at_each_position(self.all_hits.as_slice());
        self.all_hits = kept;
        proof {
            lemma_first_distinct(combined);
            lemma_first_elements(combined);
            lemma_first_prefix(old_hits, window);
            lemma_first_of_distinct(old_hits);
            let all = self.all_hits@;
            assert forall|k: int| 0 <= k < all.len() implies {
                let h = #[trigger] all[k];
                &&& h.section_idx < registry().len()
                &&& h.start <= h.content_start <= end
            } by {
                let j = choose|j: int| 0 <= j < combined.len() && combined[j] == #[trigger] all[k];
            }
            assert(all.take(old_hits.len() as int) == old_hits);
            if self.dispatched > 0 {
                assert(all[self.dispatched - 1] == old_hits[self.dispatched - 1]);
            }
        }
        self.scan_cursor = end;
        self.seen = Ghost(data@);
        proof {
            assert(data@.take(self.newlines_pos as int) =~= old_seen.take(self.newlines_pos as int));
        }
        end
    }

    /// Hands out the sections of hits `dispatched..complete`, counting
    /// newlines up to each one's content start.
    fn dispatch(&mut self, data: &[u8], complete: usize) -> (out: Vec<SectionBoundary>)
        requires
            old(self).wf(),
            old(self).scanned() == data@,
            data@.len() < u64::MAX,
            old(self).dispatched_count() <= complete <= old(self).hits().len(),
            dispatch_ordered(old(self).hits(), old(self).dispatched_count(), complete as int, old(self).counted_to()),
        ensures
            final(self).wf(),
            final(self).scanned() == data@,
            final(self).cursor() == old(self).cursor(),
            final(self).hits() == old(self).hits(),
            final(self).dispatched_count() == complete,
            out@.len() == complete - old(self).dispatched_count(),
            forall|k: int|
                0 <= k < out@.len() ==> boundary_from_hit(
                    data@,
                    old(self).hits(),
                    old(self).dispatched_count() + k,
                    #[trigger] out@[k],
                ),
    {
        let written = data.len();
        let n = self.all_hits.len();
        let defs = sections();
        let mut out: Vec<SectionBoundary> = Vec::new();
        let ghost first = self.dispatched;
        let ghost first_pos = self.newlines_pos;
        let ghost hits = self.all_hits@;
        let ghost cursor = self.scan_cursor;
        while self.dispatched < complete
            invariant
                self.wf(),
                section_views(defs@) == registry(),
                self.seen@ == data@,
                self.all_hits@ == hits,
                self.scan_cursor == cursor,
                n == hits.len(),
                data@.len() == written,
                data@.len() < u64::MAX,
                first <= self.dispatched <= complete <= n,
                dispatch_ordered(hits, first as int, complete as int, first_pos as int),
                self.dispatched == first ==> self.newlines_pos == first_pos,
                out@.len() == self.dispatched - first,
                forall|a: int|
                    0 <= a < out@.len() ==> boundary_from_hit(data@, hits, first + a, #[trigger] out@[a]),
            decreases complete - self.dispatched,
        {
            let d = self.dispatched;
            let hit = self.all_hits[d];
            let content_end: usize = if d + 1 < n {
                self.all_hits[d + 1].start
            } else {
                written
            };
            let content_start = hit.content_start;
            let mut p = self.newlines_pos;
            let mut count = self.newlines_seen;
            while p < content_start
                invariant
                    self.newlines_pos <= p <= content_start <= written,
                    data@.len() == written,
                    written < u64::MAX,
                    count == count_newlines(data@.take(p as int)),
                    count <= p,
                decreases content_start - p,
            {
                assert(data@.take(p + 1).drop_last() =~= data@.take(p as int));
                if data[p] == 10u8 {
                    count = count + 1;
                }
                p = p + 1;
            }
            self.newlines_seen = count;
            self.newlines_pos = content_start;
            let idx = hit.section_idx;
            assert(registry()[idx as int] == defs@[idx as int]@);
            out.push(SectionBoundary {
                section_idx: idx,
                name: defs[idx].name.to_owned(),
                start: content_start as u64,
                end: content_end as u64,
                line_start: count + 1,
            });
            self.dispatched = d + 1;
        }
        out
    }

    /// One tick of the scan behind the writer. `data` holds every byte
    /// written so far (an extension of what earlier ticks were given) and
    /// `done` tells whether writing has finished. Where bytes arrived past
    /// the scan cursor, scans the window up to `window_end` for headers and
    /// adds its hits, keeping one per position. Then hands out, as
    /// boundaries in order, every section whose end is known: all but the
    /// last hit's while writing goes on, all of them once it is done (with or
    /// without new bytes). Fails, handing nothing out, where the content of a
    /// section to hand out would start before the previous one's.
    pub fn step(&mut self, data: &[u8], done: bool, headers: &[Pattern]) -> (r: Result<
        Vec<SectionBoundary>,
        ScanError,
    >)
        requires
            old(self).wf(),
            old(self).scanned().len() <= data@.len(),
            data@.take(old(self).scanned().len() as int) == old(self).scanned(),
            data@.len() < u64::MAX,
            pattern_views(headers@) == header_sources(registry()),
        ensures
            ({
                let moved = data@.len() > old(self).cursor();
                let end = if moved {
                    window_end(data@, old(self).cursor(), done)
                } else {
                    old(self).cursor()
                };
                let hits = if moved {
                    first_at_each_position(old(self).hits() + window_hits(data@, old(self).cursor(), end))
                } else {
                    old(self).hits()
                };
                let complete = complete_count(hits.len() as int, done);
                let to = if old(self).dispatched_count() < complete {
                    complete
                } else {
                    old(self).dispatched_count()
                };
                &&& final(self).wf()
                &&& final(self).scanned() == data@
                &&& old(self).cursor() <= end <= data@.len()
                &&& final(self).cursor() == end
                &&& final(self).hits() == hits
                &&& old(self).hits().len() <= hits.len()
                &&& hits.take(old(self).hits().len() as int) == old(self).hits()
                &&& (r is Ok <==> dispatch_ordered(hits, old(self).dispatched_count(), to, old(self).counted_to()))
                &&& (r is Err ==> final(self).dispatched_count() == old(self).dispatched_count())
                &&& (r matches Ok(v) ==> {
                    &&& final(self).dispatched_count() == to
                    &&& v@.len() == to - old(self).dispatched_count()
                    &&& forall|k: int|
                        0 <= k < v@.len() ==> {
                            &&& boundary_from_hit(data@, hits, old(self).dispatched_count() + k, #[trigger] v@[k])
                            &&& old(self).dispatched_count() + k + 1 < hits.len() || done
                            &&& hits[old(self).dispatched_count() + k].content_start <= data@.len()
                        }
                })
            }),
    {
        let written = data.len();
        if written > self.scan_cursor {
            self.absorb_window(data, done, headers);
        } else {
            proof {
                assert(data@.len() == self.seen@.len());
                assert(data@.take(data@.len() as int) =~= data@);
                assert(self.seen@ == data@);
                assert(self.hits().take(self.hits().len() as int) =~= self.hits());
            }
        }
        let n = self.all_hits.len();
        let complete: usize = if done {
            n
        } else if n > 0 {
            n - 1
        } else {
            0
        };
        if self.dispatched >= complete {
            return Ok(Vec::new());
        }
        if !dispatch_in_order(self.all_hits.as_slice(), self.dispatched, complete, self.newlines_pos) {
            return Err(ScanError::ContentOutOfOrder);
        }
        Ok(self.dispatch(data, complete))
    }
}

/// Checks `dispatch_ordered`.
fn dispatch_in_order(hits: &[HeaderHit], from: usize, to: usize, pos: usize) -> (r: bool)
    requires
        from <= to <= hits@.len(),
    ensures
        r == dispatch_ordered(hits@, from as int, to as int, pos as int),
{
    let mut k = from;
    while k < to
        invariant
            from <= k <= to <= hits@.len(),
            forall|a: int| from <= a < k ==> pos <= (#[trigger] hits@[a]).content_start,
            forall|a: int, b: int|
                from <= a <= b < k ==> #[trigger] hits@[a].content_start <= #[trigger] hits@[b].content_start,
        decreases to - k,
    {
        let c = hits[k].content_start;
        if c < pos || (k > from && c < hits[k - 1].content_start) {
            return false;
        }
        k = k + 1;
    }
    true
}

/// Computes `last_line_end`.
fn last_newline_end(data: &[u8], from: usize, to: usize) -> (r: usize)
    requires
        from <= to <= data@.len(),
    ensures
        r == last_line_end(data@, from as int, to as int),
        from <= r <= to,
        r == from || data@[r - 1] == 10,
{
    let mut t = to;
    while t > from
        invariant
            from <= t <= to <= data@.len(),
            last_line_end(data@, from as int, to as int) == last_line_end(data@, from as int, t as int),
        decreases t - from,
    {
        if data[t - 1] == 10u8 {
            return t;
        }
        t = t - 1;
    }
    from
}

/// A boundary handed out before writing finished stays the boundary that
/// later, longer data and the longer hit list give at the same index: once a
/// section's end is known (the next header was seen), nothing written later
/// changes it, nor its line number.
pub proof fn lemma_dispatched_boundary_stable(
    data1: Seq<u8>,
    hits1: Seq<HeaderHit>,
    data2: Seq<u8>,
    hits2: Seq<HeaderHit>,
    k: int,
    b: SectionBoundary,
)
    requires
        0 <= k,
        k + 1 < hits1.len(),
        hits1[k].content_start <= data1.len(),
        data1.len() <= data2.len(),
        data2.take(data1.len() as int) == data1,
        hits1.len() <= hits2.len(),
        hits2.take(hits1.len() as int) == hits1,
        boundary_from_hit(data1, hits1, k, b),
    ensures
        boundary_from_hit(data2, hits2, k, b),
{
    assert(hits2[k] == hits1[k]);
    assert(hits2[k + 1] == hits1[k + 1]);
    assert(data2.take(hits1[k].content_start as int) =~= data1.take(hits1[k].content_start as int));
}


/// `a` and `b` describe the same section: same kind, name, content range
/// and first line.
pub open spec fn same_boundary(a: SectionBoundary, b: SectionBoundary) -> bool {
    &&& a.section_idx == b.section_idx
    &&& a.name@ == b.name@
    &&& a.start == b.start
    &&& a.end == b.end
    &&& a.line_start == b.line_start
}

/// What a scan behind the writer knew when it handed out the boundary `b`
/// of hit `k`: the bytes `seen` and hits `known` of that tick, both a prefix
/// of the final `data` and `hits`, with either the section's end already
/// known (a later hit had been seen) or the tick one that saw all the data
/// and all the hits.
pub open spec fn handed_out_at(
    data: Seq<u8>,
    hits: Seq<HeaderHit>,
    seen: Seq<u8>,
    known: Seq<HeaderHit>,
    k: int,
    b: SectionBoundary,
) -> bool {
    &&& seen.len() <= data.len()
    &&& data.take(seen.len() as int) == seen
    &&& known.len() <= hits.len()
    &&& hits.take(known.len() as int) == known
    &&& (k + 1 < known.len() || (seen == data && known == hits))
    &&& known[k].content_start <= seen.len()
    &&& boundary_from_hit(seen, known, k, b)
}

/// A streamed run hands out the sections of the whole data. Where every hit
/// was handed out, each boundary as the bytes and hits of its own tick gave
/// it (`handed_out_at`), the boundaries handed out are exactly those the
/// final data and hits give; and where those hits are the ones a scan of the
/// whole data finds, they are the boundaries `scan_boundaries` gives.
pub proof fn lemma_streamed_boundaries_are_whole(
    data: Seq<u8>,
    hits: Seq<HeaderHit>,
    handed: Seq<SectionBoundary>,
    seen: Seq<Seq<u8>>,
    known: Seq<Seq<HeaderHit>>,
    whole: Seq<SectionBoundary>,
)
    requires
        handed.len() == hits.len(),
        seen.len() == hits.len(),
        known.len() == hits.len(),
        forall|k: int| 0 <= k < hits.len() ==> #[trigger] handed_out_at(data, hits, seen[k], known[k], k, handed[k]),
    ensures
        boundaries_from_hits(data, hits, handed),
        hits == scanned_hits(data) && scan_result(data, whole) ==> handed.len() == whole.len() && forall|k: int|
            0 <= k < handed.len() ==> same_boundary(#[trigger] handed[k], whole[k]),
{
    assert forall|k: int| 0 <= k < handed.len() implies boundary_from_hit(data, hits, k, #[trigger] handed[k]) by {
        assert(handed_out_at(data, hits, seen[k], known[k], k, handed[k]));
        if !(seen[k] == data && known[k] == hits) {
            lemma_dispatched_boundary_stable(seen[k], known[k], data, hits, k, handed[k]);
        }
    }
    if hits == scanned_hits(data) && scan_result(data, whole) {
        assert forall|k: int| 0 <= k < handed.len() implies same_boundary(#[trigger] handed[k], whole[k]) by {
            assert(boundary_from_hit(data, hits, k, handed[k]));
            assert(boundary_from_hit(data, scanned_hits(data), k, whole[k]));
        }
    }
}


/// What the loop behind the writer does at one tick.
#[derive(Debug, Clone, Copy, PartialEq, Eq, Structural)]
pub struct TickPlan {
    /// Feed the written bytes to `ScanBehind::step`
    pub scan: bool,
    /// Leave the loop after this tick
    pub stop: bool,
}

/// Decides one tick of the loop behind the writer from what it sees: the
/// bytes written so far, whether writing is done, whether the run was
/// cancelled, and how far the scan got. It scans where there are new bytes,
/// or where writing is done (so that the last section is handed out), unless
/// cancelled; it stops once writing is done or the run was cancelled, and
/// otherwise waits for the next tick. `done` is to be read before `written`,
/// so that a tick that sees writing done also sees every byte.
pub fn plan_tick(written: usize, done: bool, cancelled: bool, scanned_to: usize) -> (p: TickPlan)
    ensures
        p.scan == ((written > scanned_to || done) && !cancelled),
        p.stop == (done || cancelled),
{
    TickPlan { scan: (written > scanned_to || done) && !cancelled, stop: done || cancelled }
}

} // verus!
