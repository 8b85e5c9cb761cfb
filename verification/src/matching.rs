//! Compiled regular expressions over bytes, and what their searches return.
use vstd::prelude::*;

use regex::bytes::Regex;

verus! {

/// `regex::bytes::Regex`, carried opaquely: what its searches return is
/// stated by the functions below.
#[verifier::external_type_specification]
#[verifier::external_body]
pub struct ExRegex(regex::bytes::Regex);

/// `regex::Error`, the reason a pattern does not compile, carried opaquely.
#[verifier::external_type_specification]
#[verifier::external_body]
pub struct ExRegexError(regex::Error);

/// Whether `regex::bytes::RegexBuilder` accepts `pattern` in multi-line mode
/// (valid syntax, within the default size limits).
pub uninterp spec fn regex_compiles(pattern: Seq<char>) -> bool;

/// The spans `(start, end)` that `find_iter` of the multi-line regex built
/// from `pattern` yields over `haystack`: successive non-overlapping matches.
pub uninterp spec fn regex_find_spans(pattern: Seq<char>, haystack: Seq<u8>) -> Seq<(usize, usize)>;

/// For each item of `captures_iter` of the multi-line regex built from
/// `pattern` over `haystack`: the span of the whole match, and the span of
/// capture group 1 where that group exists and took part in the match.
pub uninterp spec fn regex_capture_spans(pattern: Seq<char>, haystack: Seq<u8>) -> Seq<
    ((usize, usize), Option<(usize, usize)>),
>;

/// A regular expression compiled in multi-line mode (`^` and `$` also match
/// at line boundaries), together with its source text. Only `compile` makes
/// one, so the regex is always the compilation of the source.
pub struct Pattern {
    source: String,
    regex: Regex,
}

impl View for Pattern {
    type V = Seq<char>;

    /// The source text the regex was compiled from.
    closed spec fn view(&self) -> Seq<char> {
        self.source@
    }
}

/// Why a pattern was refused.
#[derive(Debug)]
pub struct PatternError {
    /// The pattern's source text
    pub pattern: String,
    /// The regex engine's description of the problem
    pub reason: String,
}

/// Calls `RegexBuilder::new(pattern).multi_line(true).build()`. Trusted to
/// succeed exactly when `regex_compiles(pattern)`.
#[verifier::external_body]
fn build_multi_line(pattern: &str) -> (r: Result<Regex, regex::Error>)
    ensures
        r is Ok <==> regex_compiles(pattern@),
{
    regex::bytes::RegexBuilder::new(pattern).multi_line(true).build()
}

/// Renders a `regex::Error` with its `Display` impl. Nothing is stated of the
/// text: it is a diagnostic for people.
#[verifier::external_body]
fn describe_regex_error(e: &regex::Error) -> String {
    e.to_string()
}

/// Calls `Regex::find_iter` and records each match as `(start, end)`.
/// Trusted to give `regex_find_spans(p, haystack)`, and, as `Match`
/// documents, spans with `start <= end` inside the haystack.
#[verifier::external_body]
fn find_spans(p: &Pattern, haystack: &[u8]) -> (r: Vec<(usize, usize)>)
    ensures
        r@ == regex_find_spans(p@, haystack@),
        forall|i: int| 0 <= i < r@.len() ==> (#[trigger] r@[i]).0 <= r@[i].1 <= haystack@.len(),
{
    p.regex.find_iter(haystack).map(|m| (m.start(), m.end())).collect()
}

/// Calls `Regex::captures_iter`; for each item records the span of group 0
/// (`Captures::get_match`) and of group 1 (`Captures::get(1)`). Trusted to
/// give `regex_capture_spans(p, haystack)`, every span inside the haystack.
#[verifier::external_body]
fn capture_spans(p: &Pattern, haystack: &[u8]) -> (r: Vec<((usize, usize), Option<(usize, usize)>)>)
    ensures
        r@ == regex_capture_spans(p@, haystack@),
        forall|i: int|
            0 <= i < r@.len() ==> {
                &&& (#[trigger] r@[i]).0.0 <= r@[i].0.1 <= haystack@.len()
                &&& r@[i].1 matches Some(g) ==> g.0 <= g.1 <= haystack@.len()
            },
{
    p.regex.captures_iter(haystack).map(|c| {
        let m = c.get_match();
        ((m.start(), m.end()), c.get(1).map(|g| (g.start(), g.end())))
    }).collect()
}

/// The bytes of each capture.
pub open spec fn capture_bytes(caps: Seq<&[u8]>) -> Seq<Seq<u8>> {
    caps.map_values(|c: &[u8]| c@)
}

/// The span a content pattern reports for one match: capture group 1 where
/// it took part, else the whole match.
pub open spec fn reported_span(c: ((usize, usize), Option<(usize, usize)>)) -> (usize, usize) {
    match c.1 {
        Some(g) => g,
        None => c.0,
    }
}

/// The bytes each match of `pattern` reports in `haystack`.
pub open spec fn reported_bytes(pattern: Seq<char>, haystack: Seq<u8>) -> Seq<Seq<u8>> {
    regex_capture_spans(pattern, haystack).map_values(
        |c: ((usize, usize), Option<(usize, usize)>)|
            haystack.subrange(reported_span(c).0 as int, reported_span(c).1 as int),
    )
}

impl Pattern {
    /// Compiles `pattern` in multi-line mode.
    pub fn compile(pattern: &str) -> (r: Result<Pattern, PatternError>)
        ensures
            r is Ok <==> regex_compiles(pattern@),
            r matches Ok(p) ==> p@ == pattern@,
            r matches Err(e) ==> e.pattern@ == pattern@,
    {
        match build_multi_line(pattern) {
            Ok(regex) => Ok(Pattern { source: pattern.to_owned(), regex }),
            Err(e) => Err(PatternError { pattern: pattern.to_owned(), reason: describe_regex_error(&e) }),
        }
    }

    /// The `(start, end)` of every match in `haystack`, in order.
    pub fn find_all(&self, haystack: &[u8]) -> (r: Vec<(usize, usize)>)
        ensures
            r@ == regex_find_spans(self@, haystack@),
            forall|i: int| 0 <= i < r@.len() ==> (#[trigger] r@[i]).0 <= r@[i].1 <= haystack@.len(),
    {
        find_spans(self, haystack)
    }

    /// For every match in `haystack`, the bytes of capture group 1, or of the
    /// whole match where the pattern has no group 1 or it did not take part.
    pub fn reported_matches<'a>(&self, haystack: &'a [u8]) -> (r: Vec<&'a [u8]>)
        ensures
            capture_bytes(r@) == reported_bytes(self@, haystack@),
    {
        let spans = capture_spans(self, haystack);
        reported_from_spans(haystack, &spans)
    }
}

/// Every span lies within a haystack of `len` bytes.
pub open spec fn capture_spans_in(spans: Seq<((usize, usize), Option<(usize, usize)>)>, len: int) -> bool {
    forall|k: int|
        0 <= k < spans.len() ==> {
            &&& (#[trigger] spans[k]).0.0 <= spans[k].0.1 <= len
            &&& spans[k].1 matches Some(g) ==> g.0 <= g.1 <= len
        }
}

/// The bytes each match reports, from the spans of its capture groups:
/// group 1 where it took part, else the whole match.
pub fn reported_from_spans<'a>(haystack: &'a [u8], spans: &[((usize, usize), Option<(usize, usize)>)]) -> (r: Vec<
    &'a [u8],
>)
    requires
        capture_spans_in(spans@, haystack@.len() as int),
    ensures
        capture_bytes(r@) == spans@.map_values(
            |c: ((usize, usize), Option<(usize, usize)>)|
                haystack@.subrange(reported_span(c).0 as int, reported_span(c).1 as int),
        ),
{
    let ghost want = spans@.map_values(
        |c: ((usize, usize), Option<(usize, usize)>)|
            haystack@.subrange(reported_span(c).0 as int, reported_span(c).1 as int),
    );
    let mut out: Vec<&'a [u8]> = Vec::new();
    let mut i: usize = 0;
    while i < spans.len()
        invariant
            i <= spans@.len(),
            capture_spans_in(spans@, haystack@.len() as int),
            want == spans@.map_values(
                |c: ((usize, usize), Option<(usize, usize)>)|
                    haystack@.subrange(reported_span(c).0 as int, reported_span(c).1 as int),
            ),
            out@.len() == i,
            forall|k: int| 0 <= k < i ==> (#[trigger] out@[k])@ == want[k],
        decreases spans.len() - i,
    {
        let c = spans[i];
        let (s, e) = match c.1 {
            Some(g) => g,
            None => c.0,
        };
        out.push(&haystack[s..e]);
        i = i + 1;
    }
    assert(capture_bytes(out@) =~= want);
    out
}

} // verus!
