//! Local pipeline: scan the whole mapped file for boundaries, then parse every section.
use vstd::prelude::*;

use crate::boundaries::{scan_accepts, scan_result, scanned_hits, try_scan_boundaries, SectionBoundary};
use crate::matching::PatternError;
use crate::order::sort_by_key;
use crate::patterns::{
    all_content_compiles, compile_all, first_failure_in, section_compiled_from, section_compiles, CompiledSection,
};
use crate::sections::registry;
use crate::state::{AppState, ParseResult};
use crate::worker::{finished_worker, section_fits, section_in_range, section_results, try_parse_section};

verus! {

/// Why the local pipeline stopped.
#[derive(Debug)]
pub enum PipelineError {
    /// The boundary scan does not accept the data (see `scan_accepts`)
    Unscannable,
    /// A content pattern does not compile
    Pattern(PatternError),
    /// The section at this index of the boundary list cannot be parsed
    /// (see `try_parse_section`)
    SectionRejected(usize),
}

/// `flat` is the results of every section of `bs`, section after section.
pub open spec fn all_section_results(
    data: Seq<u8>,
    bs: Seq<SectionBoundary>,
    compiled: Seq<CompiledSection>,
    flat: Seq<ParseResult>,
) -> bool
    decreases bs.len(),
{
    if bs.len() == 0 {
        flat.len() == 0
    } else {
        let cs = compiled[bs.last().section_idx as int];
        let n = cs.patterns@.len();
        &&& n <= flat.len()
        &&& all_section_results(data, bs.drop_last(), compiled, flat.take(flat.len() - n))
        &&& section_results(data, bs.last(), cs, flat.skip(flat.len() - n))
    }
}

/// Every section of `bs` can be parsed with `compiled`.
pub open spec fn sections_parse(data: Seq<u8>, bs: Seq<SectionBoundary>, compiled: Seq<CompiledSection>) -> bool {
    forall|i: int|
        0 <= i < bs.len() ==> section_in_range(data, #[trigger] bs[i]) && section_fits(
            data,
            bs[i],
            compiled[bs[i].section_idx as int],
        )
}

/// Of the boundaries `bs` that scanning `data` gives, the sections before
/// index `i` can be parsed with the compiled registry `compiled` and the one
/// at `i` cannot.
pub open spec fn rejected_at(data: Seq<u8>, i: int, bs: Seq<SectionBoundary>, compiled: Seq<CompiledSection>) -> bool {
    &&& scan_result(data, bs)
    &&& 0 <= i < bs.len()
    &&& compiled.len() == registry().len()
    &&& forall|k: int| 0 <= k < compiled.len() ==> section_compiled_from(#[trigger] compiled[k], registry()[k])
    &&& sections_parse(data, bs.take(i), compiled)
    &&& !(section_in_range(data, bs[i]) && section_fits(data, bs[i], compiled[bs[i].section_idx as int]))
}

/// What the local pipeline works through: the section boundaries of the
/// data and the compiled content patterns of every registered section.
pub struct LocalPlan {
    pub boundaries: Vec<SectionBoundary>,
    /// Empty where there are no boundaries: nothing is compiled then
    pub compiled: Vec<CompiledSection>,
}

/// Scans `data` for section boundaries and, where there are any, compiles
/// the content patterns of the registry.
pub fn local_plan(data: &[u8]) -> (r: Result<LocalPlan, PipelineError>)
    ensures
        r matches Err(PipelineError::Unscannable) <==> !scan_accepts(data@),
        r matches Err(PipelineError::Pattern(_)) <==> scan_accepts(data@) && scanned_hits(data@).len() > 0
            && !all_content_compiles(registry()),
        r matches Err(PipelineError::Pattern(e)) ==> exists|i: int|
            0 <= i < registry().len() && (forall|m: int| 0 <= m < i ==> section_compiles(#[trigger] registry()[m]))
                && first_failure_in(#[trigger] registry()[i], e),
        r matches Err(e) ==> !(e is SectionRejected),
        r matches Ok(plan) ==> {
            &&& scan_accepts(data@)
            &&& scan_result(data@, plan.boundaries@)
            &&& plan.boundaries@.len() == scanned_hits(data@).len()
            &&& (plan.boundaries@.len() == 0 ==> plan.compiled@.len() == 0)
            &&& (plan.boundaries@.len() > 0 ==> {
                &&& all_content_compiles(registry())
                &&& plan.compiled@.len() == registry().len()
                &&& forall|i: int|
                    0 <= i < plan.compiled@.len() ==> section_compiled_from(
                        #[trigger] plan.compiled@[i],
                        registry()[i],
                    )
            })
        },
{
    let boundaries = match try_scan_boundaries(data) {
        Some(b) => b,
        None => {
            return Err(PipelineError::Unscannable);
        },
    };
    if boundaries.len() == 0 {
        return Ok(LocalPlan { boundaries, compiled: Vec::new() });
    }
    match compile_all() {
        Ok(compiled) => Ok(LocalPlan { boundaries, compiled }),
        Err(e) => Err(PipelineError::Pattern(e)),
    }
}

/// Ends a local run: merges the results of all sections into `state`
/// ordered by offset, records `file_len` bytes as transferred and marks the
/// run complete.
pub fn finish_local(state: &mut AppState, results: Vec<ParseResult>, file_len: u64)
    ensures
        final(state).results@ == sort_by_key(old(state).results@ + results@),
        final(state).workers@ == old(state).workers@,
        final(state).net_bytes_done == file_len,
        final(state).net_bytes_total == old(state).net_bytes_total,
        final(state).completed(),
        final(state).cancel_requested() == old(state).cancel_requested(),
        final(state).quiet() == old(state).quiet(),
        final(state).remote == old(state).remote,
        final(state).transfer_label == old(state).transfer_label,
{
    state.merge_results(results);
    state.net_bytes_done = file_len;
    state.set_complete();
}

/// Parses a whole local file held in memory: scans it for section
/// boundaries, compiles the content patterns, parses every section (each
/// leaving a finished worker in `state`), merges the results into `state`
/// ordered by offset, records the whole file as transferred and marks the
/// run complete. Returns the number of sections; where there are none,
/// only marks the run complete.
pub fn parse_local(data: &[u8], state: &mut AppState) -> (r: Result<usize, PipelineError>)
    ensures
        r matches Err(PipelineError::Unscannable) <==> !scan_accepts(data@),
        r matches Err(PipelineError::Pattern(_)) <==> scan_accepts(data@) && scanned_hits(data@).len() > 0
            && !all_content_compiles(registry()),
        r matches Err(PipelineError::Pattern(e)) ==> exists|i: int|
            0 <= i < registry().len() && (forall|m: int| 0 <= m < i ==> section_compiles(#[trigger] registry()[m]))
                && first_failure_in(#[trigger] registry()[i], e),
        r matches Ok(n) ==> n == scanned_hits(data@).len() && final(state).net_bytes_total == old(state).net_bytes_total,
        r matches Ok(n) ==> exists|bs: Seq<SectionBoundary>|
            #![trigger scan_result(data@, bs)]
            scan_result(data@, bs) && bs.len() == n && (n == 0 ==> {
                &&& final(state).completed()
                &&& final(state).results@ == old(state).results@
                &&& final(state).workers@ == old(state).workers@
                &&& final(state).net_bytes_done == old(state).net_bytes_done
            }) && (n > 0 ==> exists|compiled: Seq<CompiledSection>, flat: Seq<ParseResult>|
                #![trigger all_section_results(data@, bs, compiled, flat)]
                {
                    &&& compiled.len() == registry().len()
                    &&& forall|i: int|
                        0 <= i < compiled.len() ==> section_compiled_from(#[trigger] compiled[i], registry()[i])
                    &&& all_section_results(data@, bs, compiled, flat)
                    &&& final(state).results@ == sort_by_key(old(state).results@ + flat)
                    &&& final(state).workers@.len() == old(state).workers@.len() + n
                    &&& final(state).workers@.take(old(state).workers@.len() as int) == old(state).workers@
                    &&& forall|i: int|
                        0 <= i < n ==> finished_worker(
                            data@,
                            #[trigger] bs[i],
                            compiled[bs[i].section_idx as int],
                            final(state).workers@[old(state).workers@.len() + i],
                        )
                    &&& final(state).net_bytes_done == data@.len()
                    &&& final(state).completed()
                }),
        r is Err ==> final(state).results@ == old(state).results@ && final(state).same_flags(old(state))
            && final(state).net_bytes_done == old(state).net_bytes_done,
        (r matches Err(PipelineError::Unscannable) || r matches Err(PipelineError::Pattern(_)))
            ==> final(state).workers@ == old(state).workers@,
        r matches Err(PipelineError::SectionRejected(i)) ==> exists|bs: Seq<SectionBoundary>, compiled: Seq<CompiledSection>|
            #[trigger] rejected_at(data@, i as int, bs, compiled) && {
                &&& final(state).workers@.len() == old(state).workers@.len() + i
                &&& final(state).workers@.take(old(state).workers@.len() as int) == old(state).workers@
                &&& forall|k: int|
                    0 <= k < i ==> finished_worker(
                        data@,
                        #[trigger] bs[k],
                        compiled[bs[k].section_idx as int],
                        final(state).workers@[old(state).workers@.len() + k],
                    )
            },
{
    let plan = match local_plan(data) {
        Ok(p) => p,
        Err(e) => {
            return Err(e);
        },
    };
    let boundaries = plan.boundaries;
    let compiled = plan.compiled;
    if boundaries.len() == 0 {
        state.set_complete();
        return Ok(0);
    }
    proof {
        crate::boundaries::lemma_boundaries_in_order(data@, boundaries@);
    }
    let ghost start_workers = state.workers@;
    let ghost bs = boundaries@;
    let mut all: Vec<ParseResult> = Vec::new();
    let mut i: usize = 0;
    while i < boundaries.len()
        invariant
            bs == boundaries@,
            scan_accepts(data@),
            all_content_compiles(registry()),
            scan_result(data@, bs),
            forall|k: int|
                0 <= k < i ==> section_in_range(data@, #[trigger] bs[k]) && section_fits(
                    data@,
                    bs[k],
                    compiled@[bs[k].section_idx as int],
                ),
            forall|k: int| 0 <= k < bs.len() ==> (#[trigger] bs[k]).section_idx < registry().len(),
            compiled@.len() == registry().len(),
            forall|k: int| 0 <= k < compiled@.len() ==> section_compiled_from(#[trigger] compiled@[k], registry()[k]),
            i <= bs.len(),
            all_section_results(data@, bs.take(i as int), compiled@, all@),
            start_workers == old(state).workers@,
            state.workers@.len() == start_workers.len() + i,
            state.workers@.take(start_workers.len() as int) == start_workers,
            forall|k: int|
                0 <= k < i ==> finished_worker(
                    data@,
                    #[trigger] bs[k],
                    compiled@[bs[k].section_idx as int],
                    state.workers@[start_workers.len() + k],
                ),
            state.results@ == old(state).results@,
            state.same_flags(old(state)),
            state.net_bytes_total == old(state).net_bytes_total,
            state.net_bytes_done == old(state).net_bytes_done,
        decreases bs.len() - i,
    {
        let b = &boundaries[i];
        let idx = b.section_idx;
        let ghost before = state.workers@;
        match try_parse_section(data, b, &compiled[idx], state) {
            Some(mut results) => {
                let ghost prev = all@;
                let ghost got = results@;
                all.append(&mut results);
                proof {
                    let n = compiled@[idx as int].patterns@.len();
                    assert(bs.take(i + 1).drop_last() =~= bs.take(i as int));
                    assert(bs.take(i + 1).last() == bs[i as int]);
                    assert(all@.take(all@.len() - n) =~= prev);
                    assert(all@.skip(all@.len() - n) =~= got);
                    assert(state.workers@.take(start_workers.len() as int) =~= start_workers) by {
                        assert(state.workers@.take(before.len() as int) == before);
                        assert(before.take(start_workers.len() as int) == start_workers);
                    }
                    assert forall|k: int| 0 <= k < i + 1 implies finished_worker(
                        data@,
                        #[trigger] bs[k],
                        compiled@[bs[k].section_idx as int],
                        state.workers@[start_workers.len() + k],
                    ) by {
                        if k < i {
                            assert(state.workers@[start_workers.len() + k] == state.workers@.take(before.len() as int)[start_workers.len() + k]);
                        }
                    }
                }
            },
            None => {
                assert(sections_parse(data@, bs.take(i as int), compiled@)) by {
                    assert forall|k: int| 0 <= k < i implies section_in_range(data@, #[trigger] bs.take(i as int)[k])
                        && section_fits(data@, bs.take(i as int)[k], compiled@[bs.take(i as int)[k].section_idx as int]) by {
                        assert(bs.take(i as int)[k] == bs[k]);
                    }
                }
                assert(!(section_in_range(data@, bs[i as int]) && section_fits(
                    data@,
                    bs[i as int],
                    compiled@[bs[i as int].section_idx as int],
                )));
                assert(rejected_at(data@, i as int, bs, compiled@));
                assert(state.workers@ == before);
                let r: Result<usize, PipelineError> = Err(PipelineError::SectionRejected(i));
                assert(r matches Err(PipelineError::SectionRejected(j)) ==> j == i);
                return r;
            },
        }
        i = i + 1;
    }
    assert(bs.take(bs.len() as int) =~= bs);
    finish_local(state, all, data.len() as u64);
    Ok(boundaries.len())
}

} // verus!
