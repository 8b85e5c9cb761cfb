//! Content patterns compiled once, shared by every section worker.
use vstd::prelude::*;

use crate::matching::{regex_compiles, Pattern, PatternError};
use crate::sections::{registry, sections, ContentSpec, Handler, SectionDef, SectionSpec};

verus! {

/// One compiled content pattern.
pub struct CompiledPattern {
    pub label: String,
    pub regex: Pattern,
    pub handler: Handler,
}

/// Compiled content patterns for a single section, in the section's order.
pub struct CompiledSection {
    pub patterns: Vec<CompiledPattern>,
}

/// `c` is the compiled form of content pattern `spec`.
pub open spec fn compiled_from(c: CompiledPattern, spec: ContentSpec) -> bool {
    &&& c.label@ == spec.label
    &&& c.regex@ == spec.regex
    &&& c.handler == spec.handler
}

/// `cs` holds the compiled content patterns of `spec`, in order.
pub open spec fn section_compiled_from(cs: CompiledSection, spec: SectionSpec) -> bool {
    &&& cs.patterns@.len() == spec.content_patterns.len()
    &&& forall|j: int|
        0 <= j < cs.patterns@.len() ==> compiled_from(#[trigger] cs.patterns@[j], spec.content_patterns[j])
}

/// Every content pattern of `spec` compiles.
pub open spec fn section_compiles(spec: SectionSpec) -> bool {
    forall|j: int|
        0 <= j < spec.content_patterns.len() ==> regex_compiles(#[trigger] spec.content_patterns[j].regex)
}

/// `e` reports the first content pattern of `spec` that does not compile.
pub open spec fn first_failure_in(spec: SectionSpec, e: PatternError) -> bool {
    exists|j: int|
        0 <= j < spec.content_patterns.len() && !regex_compiles(#[trigger] spec.content_patterns[j].regex)
            && (forall|m: int| 0 <= m < j ==> regex_compiles(#[trigger] spec.content_patterns[m].regex))
            && e.pattern@ == spec.content_patterns[j].regex
}

/// Every content pattern of every registered section compiles.
pub open spec fn all_content_compiles(specs: Seq<SectionSpec>) -> bool {
    forall|i: int| 0 <= i < specs.len() ==> section_compiles(#[trigger] specs[i])
}

/// Compiles the content patterns of one section; fails on the first pattern
/// that does not compile.
fn compile_section(section: &SectionDef) -> (r: Result<CompiledSection, PatternError>)
    ensures
        r is Ok <==> section_compiles(section@),
        r matches Ok(cs) ==> section_compiled_from(cs, section@),
        r matches Err(e) ==> first_failure_in(section@, e),
{
    let ghost spec = section@;
    let mut patterns: Vec<CompiledPattern> = Vec::new();
    let mut j: usize = 0;
    while j < section.content_patterns.len()
        invariant
            spec == section@,
            j <= section.content_patterns@.len(),
            patterns@.len() == j,
            forall|m: int| 0 <= m < j ==> regex_compiles(#[trigger] spec.content_patterns[m].regex),
            forall|m: int| 0 <= m < j ==> compiled_from(#[trigger] patterns@[m], spec.content_patterns[m]),
        decreases section.content_patterns.len() - j,
    {
        let c = &section.content_patterns[j];
        assert(spec.content_patterns[j as int] == c@);
        match Pattern::compile(c.regex) {
            Ok(regex) => {
                patterns.push(CompiledPattern { label: c.label.to_owned(), regex, handler: c.handler });
            },
            Err(e) => {
                assert(!regex_compiles(spec.content_patterns[j as int].regex));
                return Err(e);
            },
        }
        j = j + 1;
    }
    Ok(CompiledSection { patterns })
}

/// Compiles the content patterns of every registered section, in registry
/// order; fails on the first pattern that does not compile.
pub fn compile_all() -> (r: Result<Vec<CompiledSection>, PatternError>)
    ensures
        r is Ok <==> all_content_compiles(registry()),
        r matches Ok(v) ==> v@.len() == registry().len() && forall|i: int|
            0 <= i < v@.len() ==> section_compiled_from(#[trigger] v@[i], registry()[i]),
        r matches Err(e) ==> exists|i: int|
            0 <= i < registry().len() && (forall|m: int| 0 <= m < i ==> section_compiles(#[trigger] registry()[m]))
                && first_failure_in(#[trigger] registry()[i], e),
{
    let defs = sections();
    let mut out: Vec<CompiledSection> = Vec::new();
    let mut i: usize = 0;
    while i < defs.len()
        invariant
            crate::sections::section_views(defs@) == registry(),
            i <= defs@.len(),
            out@.len() == i,
            forall|m: int| 0 <= m < i ==> section_compiles(#[trigger] registry()[m]),
            forall|m: int| 0 <= m < i ==> section_compiled_from(#[trigger] out@[m], registry()[m]),
        decreases defs.len() - i,
    {
        assert(registry()[i as int] == defs@[i as int]@);
        match compile_section(&defs[i]) {
            Ok(cs) => out.push(cs),
            Err(e) => {
                assert(first_failure_in(registry()[i as int], e));
                return Err(e);
            },
        }
        i = i + 1;
    }
    assert(all_content_compiles(registry()));
    Ok(out)
}

} // verus!
