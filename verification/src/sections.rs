//! The registry of sections the parser looks for.
//!
//! To add a section, add an entry to `sections()` (and to `registry()`, which
//! states what `sections()` returns); to remove one, delete it from both.
//! Order determines priority when a line matches several headers.
use vstd::prelude::*;

use crate::state::ParseResult;
use crate::text::decimal;
use crate::text::join;

use crate::matching::capture_bytes;

use self::handlers::{list_separator, lossy_all, parsed_sum};

pub mod finalizers;
pub mod handlers;

verus! {

/// How the captures of one content pattern are aggregated into a value.
#[derive(Debug, Clone, Copy, PartialEq, Eq, Structural)]
pub enum Handler {
    /// Sum of the captures that are unsigned decimal numbers
    Sum,
    /// Number of matches
    Count,
    /// First capture, or empty
    First,
    /// All captures joined with `", "`
    Collect,
}

/// What is done with a section's results once all its patterns ran.
#[derive(Debug, Clone, Copy, PartialEq, Eq, Structural)]
pub enum Finalizer {
    /// Results pass through unchanged
    Identity,
}

/// A single content pattern within a section.
pub struct ContentPattern {
    /// Label shown in results and progress display
    pub label: &'static str,
    /// Regex matched against the section's content lines
    pub regex: &'static str,
    /// Aggregation of the pattern's captures (group 1, else the whole match)
    pub handler: Handler,
}

/// One parseable section of the input.
pub struct SectionDef {
    /// Unique section identifier used in results and progress display
    pub name: &'static str,
    /// Regex matched against each line to detect the section header
    pub header_pattern: &'static str,
    /// Content patterns to match within this section
    pub content_patterns: Vec<ContentPattern>,
    /// Applied to the results of each occurrence of the section
    pub finalizer: Finalizer,
}

/// The text of a content pattern.
pub struct ContentSpec {
    pub label: Seq<char>,
    pub regex: Seq<char>,
    pub handler: Handler,
}

/// The text of a section definition.
pub struct SectionSpec {
    pub name: Seq<char>,
    pub header_pattern: Seq<char>,
    pub content_patterns: Seq<ContentSpec>,
    pub finalizer: Finalizer,
}

impl View for ContentPattern {
    type V = ContentSpec;

    open spec fn view(&self) -> ContentSpec {
        ContentSpec { label: self.label@, regex: self.regex@, handler: self.handler }
    }
}

impl View for SectionDef {
    type V = SectionSpec;

    open spec fn view(&self) -> SectionSpec {
        SectionSpec {
            name: self.name@,
            header_pattern: self.header_pattern@,
            content_patterns: self.content_patterns@.map_values(|c: ContentPattern| c@),
            finalizer: self.finalizer,
        }
    }
}

/// The value a handler makes of the bytes of a pattern's captures.
pub open spec fn handler_value(h: Handler, caps: Seq<Seq<u8>>) -> Seq<char> {
    match h {
        Handler::Sum => decimal(parsed_sum(caps)),
        Handler::Count => decimal(caps.len()),
        Handler::First => if caps.len() == 0 {
            Seq::empty()
        } else {
            crate::text::utf8_lossy(caps[0])
        },
        Handler::Collect => join(lossy_all(caps), list_separator()),
    }
}

/// A handler can be applied to these captures without its arithmetic overflowing.
pub open spec fn handler_fits(h: Handler, caps: Seq<Seq<u8>>) -> bool {
    h == Handler::Sum ==> parsed_sum(caps) <= u64::MAX
}

impl Handler {
    /// Aggregates the captures of one pattern into its value.
    pub fn apply(self, captures: &[&[u8]]) -> (r: String)
        requires
            handler_fits(self, capture_bytes(captures@)),
        ensures
            r@ == handler_value(self, capture_bytes(captures@)),
    {
        match self {
            Handler::Sum => handlers::sum(captures),
            Handler::Count => handlers::count(captures),
            Handler::First => {
                let r = handlers::first(captures);
                assert(captures@.len() > 0 ==> capture_bytes(captures@)[0] == captures@[0]@);
                r
            },
            Handler::Collect => handlers::collect(captures),
        }
    }
}

impl Finalizer {
    /// Applies the finalizer to the results of one section occurrence.
    pub fn apply(self, results: Vec<ParseResult>) -> (r: Vec<ParseResult>)
        ensures
            r == results,
    {
        match self {
            Finalizer::Identity => finalizers::identity(results),
        }
    }
}

/// The sections `sections()` returns, as text.
pub open spec fn registry() -> Seq<SectionSpec> {
    seq![
        SectionSpec {
            name: "CAT"@,
            header_pattern: "^Cat Boundary \\d+"@,
            content_patterns: seq![
                ContentSpec { label: "value"@, regex: "AddVal (\\d+)"@, handler: Handler::Sum },
                ContentSpec { label: "events"@, regex: "^Event \\w+"@, handler: Handler::Count },
                ContentSpec { label: "host"@, regex: "Host: (\\S+)"@, handler: Handler::First },
                ContentSpec { label: "tags"@, regex: "Tag=(\\w+)"@, handler: Handler::Collect },
            ],
            finalizer: Finalizer::Identity,
        },
        SectionSpec {
            name: "DOG"@,
            header_pattern: "^Dog Boundary \\d+"@,
            content_patterns: seq![
                ContentSpec { label: "value"@, regex: "AddVal (\\d+)"@, handler: Handler::Sum },
            ],
            finalizer: Finalizer::Identity,
        },
    ]
}

/// The views of a list of section definitions.
pub open spec fn section_views(defs: Seq<SectionDef>) -> Seq<SectionSpec> {
    defs.map_values(|d: SectionDef| d@)
}

/// Registry of all sections to parse.
pub fn sections() -> (r: Vec<SectionDef>)
    ensures
        section_views(r@) == registry(),
{
    let r = vec![
        SectionDef {
            name: "CAT",
            header_pattern: r"^Cat Boundary \d+",
            content_patterns: vec![
                ContentPattern { label: "value", regex: r"AddVal (\d+)", handler: Handler::Sum },
                ContentPattern { label: "events", regex: r"^Event \w+", handler: Handler::Count },
                ContentPattern { label: "host", regex: r"Host: (\S+)", handler: Handler::First },
                ContentPattern { label: "tags", regex: r"Tag=(\w+)", handler: Handler::Collect },
            ],
            finalizer: Finalizer::Identity,
        },
        SectionDef {
            name: "DOG",
            header_pattern: r"^Dog Boundary \d+",
            content_patterns: vec![
                ContentPattern { label: "value", regex: r"AddVal (\d+)", handler: Handler::Sum },
            ],
            finalizer: Finalizer::Identity,
        },
    ];
    assert(r@[0].content_patterns@.map_values(|c: ContentPattern| c@) =~= registry()[0].content_patterns);
    assert(r@[1].content_patterns@.map_values(|c: ContentPattern| c@) =~= registry()[1].content_patterns);
    assert(section_views(r@) =~= registry());
    r
}


/// A count is the number of matches: its text reads back as that number, so
/// it grows by one with each match, and matches with the same number give the
/// same count whatever they hold (two equal matches count twice).
pub proof fn lemma_count_is_number_of_matches(caps: Seq<Seq<u8>>, other: Seq<Seq<u8>>, extra: Seq<u8>)
    requires
        caps.len() < u64::MAX,
    ensures
        crate::text::parse_u64(crate::text::ascii_bytes(handler_value(Handler::Count, caps))) == Some(
            caps.len() as u64,
        ),
        crate::text::parse_u64(crate::text::ascii_bytes(handler_value(Handler::Count, caps.push(extra)))) == Some(
            (caps.len() + 1) as u64,
        ),
        other.len() == caps.len() ==> handler_value(Handler::Count, other) == handler_value(Handler::Count, caps),
{
    crate::text::lemma_decimal_parses_back(caps.len() as u64);
    crate::text::lemma_decimal_parses_back((caps.len() + 1) as u64);
}

/// The first-capture value depends on the first capture alone: matches after
/// it change nothing, no match gives empty text, and a single capture gives
/// what collecting it gives.
pub proof fn lemma_first_takes_the_first_match(caps: Seq<Seq<u8>>, more: Seq<Seq<u8>>, c: Seq<u8>)
    ensures
        caps.len() > 0 ==> handler_value(Handler::First, caps + more) == handler_value(Handler::First, caps),
        handler_value(Handler::First, Seq::<Seq<u8>>::empty()) == Seq::<char>::empty(),
        handler_value(Handler::First, seq![c]) == handler_value(Handler::Collect, seq![c]),
{
    if caps.len() > 0 {
        assert((caps + more)[0] == caps[0]);
    }
    assert(lossy_all(seq![c]) =~= seq![crate::text::utf8_lossy(c)]);
}

} // verus!
