//! Pass 2: parsing one section with the compiled patterns of its kind.
use vstd::prelude::*;

use crate::boundaries::SectionBoundary;
use crate::matching::{capture_bytes, reported_bytes};
use crate::patterns::{CompiledPattern, CompiledSection};
use crate::sections::{handler_fits, handler_value, registry, section_views, sections, Handler};
use crate::sections::handlers::{checked_sum, parsed_sum};
use crate::state::{AppState, ParseResult, WorkerStatus};

verus! {

/// The bytes of a section's content.
pub open spec fn section_bytes(data: Seq<u8>, b: SectionBoundary) -> Seq<u8> {
    data.subrange(b.start as int, b.end as int)
}

/// What pattern `cp` reports in the content of section `b`.
pub open spec fn pattern_captures(data: Seq<u8>, b: SectionBoundary, cp: CompiledPattern) -> Seq<Seq<u8>> {
    reported_bytes(cp.regex@, section_bytes(data, b))
}

/// The boundary lies within the data and names a registered section.
pub open spec fn section_in_range(data: Seq<u8>, b: SectionBoundary) -> bool {
    &&& b.start <= b.end <= data.len()
    &&& b.section_idx < registry().len()
}

/// No handler of `cs` overflows on this section.
pub open spec fn section_fits(data: Seq<u8>, b: SectionBoundary, cs: CompiledSection) -> bool {
    forall|j: int|
        0 <= j < cs.patterns@.len() ==> handler_fits(
            (#[trigger] cs.patterns@[j]).handler,
            pattern_captures(data, b, cs.patterns@[j]),
        )
}

/// `r` is the result of pattern `cp` over section `b`.
pub open spec fn result_of(data: Seq<u8>, b: SectionBoundary, cp: CompiledPattern, r: ParseResult) -> bool {
    &&& r.section@ == registry()[b.section_idx as int].name
    &&& r.label@ == cp.label@
    &&& r.offset == b.start
    &&& r.line == b.line_start
    &&& r.value@ == handler_value(cp.handler, pattern_captures(data, b, cp))
}

/// `rs` holds one result per pattern of `cs`, in pattern order.
pub open spec fn section_results(data: Seq<u8>, b: SectionBoundary, cs: CompiledSection, rs: Seq<ParseResult>) -> bool {
    &&& rs.len() == cs.patterns@.len()
    &&& forall|j: int| 0 <= j < rs.len() ==> result_of(data, b, cs.patterns@[j], #[trigger] rs[j])
}

/// The match counter after the first `n` patterns: each pattern's number of
/// matches added, wrapping at 2^64 like an atomic counter.
pub open spec fn match_counter(data: Seq<u8>, b: SectionBoundary, ps: Seq<CompiledPattern>, n: int) -> u64
    decreases n,
{
    if n <= 0 {
        0
    } else {
        vstd::wrapping::u64_specs::wrapping_add(
            match_counter(data, b, ps, n - 1),
            pattern_captures(data, b, ps[n - 1]).len() as u64,
        )
    }
}

/// The content bytes of a section.
fn section_slice<'a>(data: &'a [u8], boundary: &SectionBoundary) -> (r: &'a [u8])
    requires
        section_in_range(data@, *boundary),
    ensures
        r@ == section_bytes(data@, *boundary),
{
    let len = data.len();
    assert(boundary.end <= len);
    &data[boundary.start as usize..boundary.end as usize]
}

/// Checks `section_fits`.
pub fn section_fits_check(data: &[u8], boundary: &SectionBoundary, compiled: &CompiledSection) -> (r: bool)
    requires
        section_in_range(data@, *boundary),
    ensures
        r == section_fits(data@, *boundary, *compiled),
{
    let section_data = section_slice(data, boundary);
    let mut j: usize = 0;
    while j < compiled.patterns.len()
        invariant
            j <= compiled.patterns@.len(),
            section_data@ == section_bytes(data@, *boundary),
            forall|m: int|
                0 <= m < j ==> handler_fits(
                    (#[trigger] compiled.patterns@[m]).handler,
                    pattern_captures(data@, *boundary, compiled.patterns@[m]),
                ),
        decreases compiled.patterns.len() - j,
    {
        let cp = &compiled.patterns[j];
        if cp.handler == Handler::Sum {
            let caps = cp.regex.reported_matches(section_data);
            if checked_sum(caps.as_slice()).is_none() {
                return false;
            }
        }
        j = j + 1;
    }
    true
}

/// Applies every content pattern of `compiled` to the content of `boundary`:
/// per pattern, collects what each match reports (capture group 1, else the
/// whole match), aggregates it with the pattern's handler, and makes one
/// result; then applies the section's finalizer. Also returns the match
/// counter over all patterns. `None` where a handler would overflow.
pub fn evaluate_section(data: &[u8], boundary: &SectionBoundary, compiled: &CompiledSection) -> (r: Option<(Vec<ParseResult>, u64)>)
    requires
        section_in_range(data@, *boundary),
    ensures
        r is Some <==> section_fits(data@, *boundary, *compiled),
        r matches Some(v) ==> section_results(data@, *boundary, *compiled, v.0@) && v.1 == match_counter(
            data@,
            *boundary,
            compiled.patterns@,
            compiled.patterns@.len() as int,
        ),
{
    let defs = sections();
    let idx = boundary.section_idx;
    assert(registry()[idx as int] == defs@[idx as int]@);
    let section_data = section_slice(data, boundary);
    let mut results: Vec<ParseResult> = Vec::new();
    let mut matches: u64 = 0;
    let mut j: usize = 0;
    while j < compiled.patterns.len()
        invariant
            section_views(defs@) == registry(),
            idx == boundary.section_idx,
            idx < defs@.len(),
            j <= compiled.patterns@.len(),
            section_data@ == section_bytes(data@, *boundary),
            results@.len() == j,
            forall|m: int| 0 <= m < j ==> result_of(data@, *boundary, compiled.patterns@[m], #[trigger] results@[m]),
            forall|m: int|
                0 <= m < j ==> handler_fits(
                    (#[trigger] compiled.patterns@[m]).handler,
                    pattern_captures(data@, *boundary, compiled.patterns@[m]),
                ),
            matches == match_counter(data@, *boundary, compiled.patterns@, j as int),
        decreases compiled.patterns.len() - j,
    {
        let cp = &compiled.patterns[j];
        let caps = cp.regex.reported_matches(section_data);
        assert(capture_bytes(caps@) == pattern_captures(data@, *boundary, compiled.patterns@[j as int]));
        matches = matches.wrapping_add(caps.len() as u64);
        if cp.handler == Handler::Sum && checked_sum(caps.as_slice()).is_none() {
            return None;
        }
        let value = cp.handler.apply(caps.as_slice());
        let r = ParseResult {
            section: defs[idx].name.to_owned(),
            label: cp.label.clone(),
            offset: boundary.start,
            line: boundary.line_start,
            value,
        };
        results.push(r);
        j = j + 1;
    }
    let results = defs[idx].finalizer.apply(results);
    Some((results, matches))
}

/// The worker entry a finished section leaves behind.
pub open spec fn finished_worker(
    data: Seq<u8>,
    b: SectionBoundary,
    cs: CompiledSection,
    w: crate::state::WorkerState,
) -> bool {
    &&& w.section_name@ == b.name@
    &&& w.bytes_total == b.end - b.start
    &&& w.bytes_done == b.end - b.start
    &&& w.matches == match_counter(data, b, cs.patterns@, cs.patterns@.len() as int)
    &&& w.status == WorkerStatus::Done
}

/// `after` is `before` with one more worker, finished on section `b`, and
/// no other change.
pub open spec fn worker_recorded(
    before: AppState,
    after: AppState,
    data: Seq<u8>,
    b: SectionBoundary,
    cs: CompiledSection,
) -> bool {
    &&& after.workers@.len() == before.workers@.len() + 1
    &&& after.workers@.take(before.workers@.len() as int) == before.workers@
    &&& finished_worker(data, b, cs, after.workers@.last())
    &&& after.same_flags(&before)
    &&& after.results@ == before.results@
    &&& after.net_bytes_done == before.net_bytes_done
    &&& after.net_bytes_total == before.net_bytes_total
}

/// `after` is `before` with one more worker, for section `b`, running and
/// with nothing counted yet, and no other change.
pub open spec fn worker_started(before: AppState, after: AppState, b: SectionBoundary, idx: int) -> bool {
    &&& idx == before.workers@.len()
    &&& after.workers@.len() == before.workers@.len() + 1
    &&& after.workers@.take(idx) == before.workers@
    &&& after.workers@[idx].section_name@ == b.name@
    &&& after.workers@[idx].bytes_total == b.end - b.start
    &&& after.workers@[idx].bytes_done == 0
    &&& after.workers@[idx].matches == 0
    &&& after.workers@[idx].status == WorkerStatus::Running
    &&& after.same_flags(&before)
    &&& after.results@ == before.results@
    &&& after.net_bytes_done == before.net_bytes_done
    &&& after.net_bytes_total == before.net_bytes_total
}

/// Starts the parse of one section: where the boundary lies within the data
/// and names a registered section, registers its worker, running, and
/// returns the worker's index; else leaves `state` unchanged.
pub fn start_section(data: &[u8], boundary: &SectionBoundary, state: &mut AppState) -> (r: Option<usize>)
    ensures
        r is Some <==> section_in_range(data@, *boundary),
        r is None ==> *final(state) == *old(state),
        r matches Some(idx) ==> worker_started(*old(state), *final(state), *boundary, idx as int),
{
    if boundary.start > boundary.end || boundary.end > data.len() as u64 || boundary.section_idx >= sections().len() {
        return None;
    }
    let idx = state.register_worker(boundary.name.clone(), boundary.end - boundary.start);
    Some(idx)
}

/// Ends the parse of one section, given what evaluating it gave: its
/// worker `idx` finishes, all its bytes done, with the match count, and the
/// results are handed on; where a sum overflowed, the worker fails, its
/// counts left as they were, and there are no results.
pub fn end_section(state: &mut AppState, idx: usize, outcome: Option<(Vec<ParseResult>, u64)>) -> (r: Option<
    Vec<ParseResult>,
>)
    requires
        idx < old(state).workers@.len(),
    ensures
        r is Some <==> outcome is Some,
        r matches Some(v) ==> (outcome matches Some(o) && v@ == o.0@),
        final(state).workers@.len() == old(state).workers@.len(),
        forall|k: int|
            0 <= k < old(state).workers@.len() && k != idx ==> #[trigger] final(state).workers@[k]
                == old(state).workers@[k],
        final(state).workers@[idx as int].section_name == old(state).workers@[idx as int].section_name,
        final(state).workers@[idx as int].bytes_total == old(state).workers@[idx as int].bytes_total,
        outcome matches Some(o) ==> {
            &&& final(state).workers@[idx as int].bytes_done == old(state).workers@[idx as int].bytes_total
            &&& final(state).workers@[idx as int].matches == o.1
            &&& final(state).workers@[idx as int].status == WorkerStatus::Done
        },
        outcome is None ==> {
            &&& final(state).workers@[idx as int].bytes_done == old(state).workers@[idx as int].bytes_done
            &&& final(state).workers@[idx as int].matches == old(state).workers@[idx as int].matches
            &&& final(state).workers@[idx as int].status == WorkerStatus::Failed
        },
        final(state).same_flags(old(state)),
        final(state).results@ == old(state).results@,
        final(state).net_bytes_done == old(state).net_bytes_done,
        final(state).net_bytes_total == old(state).net_bytes_total,
{
    match outcome {
        Some((results, matches)) => {
            state.finish_worker(idx, matches);
            Some(results)
        },
        None => {
            state.fail_worker(idx);
            None
        },
    }
}

/// Parses one section of the data with the compiled patterns of its kind,
/// registering a worker in `state` that ends up done with the section's
/// byte count and match count. Returns one result per content pattern.
pub fn parse_section(
    data: &[u8],
    boundary: &SectionBoundary,
    compiled: &CompiledSection,
    state: &mut AppState,
) -> (r: Vec<ParseResult>)
    requires
        section_in_range(data@, *boundary),
        section_fits(data@, *boundary, *compiled),
    ensures
        section_results(data@, *boundary, *compiled, r@),
        worker_recorded(*old(state), *final(state), data@, *boundary, *compiled),
{
    let idx = match start_section(data, boundary, state) {
        Some(i) => i,
        None => {
            return Vec::new();
        },
    };
    let ghost started = *state;
    let outcome = evaluate_section(data, boundary, compiled);
    match end_section(state, idx, outcome) {
        Some(results) => {
            proof {
                assert(state.workers@.take(idx as int) =~= started.workers@.take(idx as int));
                assert(started.workers@.take(idx as int) == old(state).workers@);
            }
            results
        },
        None => Vec::new(),
    }
}

/// Parses a section like `parse_section` where it accepts the input, and
/// returns `None`, leaving `state` unchanged, where it does not: the
/// boundary lies outside the data or names no registered section, or a
/// sum overflows `u64`.
pub fn try_parse_section(
    data: &[u8],
    boundary: &SectionBoundary,
    compiled: &CompiledSection,
    state: &mut AppState,
) -> (r: Option<Vec<ParseResult>>)
    ensures
        r is Some <==> section_in_range(data@, *boundary) && section_fits(data@, *boundary, *compiled),
        r matches Some(v) ==> section_results(data@, *boundary, *compiled, v@) && worker_recorded(
            *old(state),
            *final(state),
            data@,
            *boundary,
            *compiled,
        ),
        r is None ==> *final(state) == *old(state),
{
    let len = data.len();
    if boundary.start > boundary.end || boundary.end > len as u64 || boundary.section_idx >= sections().len() {
        return None;
    }
    if !section_fits_check(data, boundary, compiled) {
        return None;
    }
    Some(parse_section(data, boundary, compiled, state))
}

/// A section's results depend only on its own content bytes: bytes before
/// its header (a preamble) or in other sections cannot change them, so each
/// occurrence of a section is aggregated independently.
pub proof fn lemma_results_depend_on_section_only(
    data1: Seq<u8>,
    data2: Seq<u8>,
    b: SectionBoundary,
    cs: CompiledSection,
    rs: Seq<ParseResult>,
)
    requires
        section_bytes(data1, b) == section_bytes(data2, b),
        section_results(data1, b, cs, rs),
    ensures
        section_results(data2, b, cs, rs),
{
    assert forall|j: int| 0 <= j < rs.len() implies result_of(data2, b, cs.patterns@[j], #[trigger] rs[j]) by {
        assert(result_of(data1, b, cs.patterns@[j], rs[j]));
    }
}

/// The value of a sum pattern, read back as an unsigned decimal number,
/// is the sum it reports.
pub proof fn lemma_sum_value_parses_back(caps: Seq<Seq<u8>>)
    requires
        parsed_sum(caps) <= u64::MAX,
    ensures
        crate::text::parse_u64(crate::text::ascii_bytes(handler_value(Handler::Sum, caps))) == Some(
            parsed_sum(caps) as u64,
        ),
{
    crate::text::lemma_decimal_parses_back(parsed_sum(caps) as u64);
}


/// The bytes a section's patterns run over are exactly its content: the
/// `end - start` bytes of the data from `start` on, so that the data is what
/// lies before the section, the section, and what lies after it.
pub proof fn lemma_section_bytes_are_its_content(data: Seq<u8>, b: SectionBoundary)
    requires
        section_in_range(data, b),
    ensures
        section_bytes(data, b).len() == b.end - b.start,
        forall|k: int| 0 <= k < b.end - b.start ==> #[trigger] section_bytes(data, b)[k] == data[b.start + k],
        data.take(b.start as int) + section_bytes(data, b) + data.skip(b.end as int) == data,
{
    assert(data.take(b.start as int) + section_bytes(data, b) + data.skip(b.end as int) =~= data);
}

} // verus!
