use file_parser::boundaries::{scan_boundaries, SectionBoundary};
use file_parser::matching::Pattern;
use file_parser::patterns::{compile_all, CompiledPattern, CompiledSection};
use file_parser::sections::finalizers;
use file_parser::sections::handlers;
use file_parser::sections::{ContentPattern, Finalizer, Handler, SectionDef};
use file_parser::state::{AppState, ParseResult};
use file_parser::worker::parse_section;

const ONE_OF_EACH: &str = "Cat Boundary 1\n\
AddVal 10\n\
Event alpha\n\
Host: server1.example.com\n\
Tag=red\n\
noise line\n\
AddVal 20\n\
Event beta\n\
Host: server2.example.com\n\
Tag=blue\n\
Dog Boundary 1\n\
AddVal 5\n\
unrelated\n\
AddVal 15\n";

const MULTI_BOUNDARY: &str = "Cat Boundary 1\n\
AddVal 40\n\
AddVal 60\n\
Dog Boundary 1\n\
AddVal 50\n\
Cat Boundary 2\n\
AddVal 150\n\
AddVal 50\n\
Dog Boundary 2\n\
AddVal 25\n\
AddVal 50\n";

const NO_ADDVAL: &str = "Cat Boundary 1\n\
nothing to see\n\
Dog Boundary 1\n\
still nothing\n";

const NO_SECTIONS: &str = "just some text\n\
AddVal 10\n\
no headers here\n";

const PREAMBLE: &str = "preamble line\n\
AddVal 999\n\
Cat Boundary 7\n\
AddVal 40\n\
AddVal 2\n";

/// A large input: one CAT and one DOG section of 10 000 content lines each.
fn large() -> Vec<u8> {
    let mut s = String::from("Cat Boundary 1\n");
    for i in 0..10_000u64 {
        let line = if i < 5_000 {
            format!("AddVal {}\n", if i == 4_999 { 5_955 } else { 2_037 })
        } else if i < 5_988 {
            format!("Event ev{}\n", i)
        } else if i < 7_022 {
            format!("Tag=t{}\n", i)
        } else if i == 7_022 {
            "Host: gateway.edge\n".to_string()
        } else if i == 7_023 {
            "Host: backup.edge\n".to_string()
        } else {
            format!("filler {}\n", i)
        };
        s.push_str(&line);
    }
    s.push_str("Dog Boundary 1\n");
    for i in 0..10_000u64 {
        let line = if i < 5_000 {
            format!("AddVal {}\n", if i == 4_999 { 3_209 } else { 2_006 })
        } else {
            format!("filler {}\n", i)
        };
        s.push_str(&line);
    }
    s.into_bytes()
}

fn make_state() -> AppState {
    AppState::new(0, false, "test", true)
}

/// Run the full parse pipeline on raw bytes and return all results.
fn run_parse(data: &[u8]) -> Vec<ParseResult> {
    let boundaries = scan_boundaries(data);
    let compiled = compile_all().unwrap();
    let mut state = make_state();
    let mut out = Vec::new();
    for b in &boundaries {
        out.extend(parse_section(data, b, &compiled[b.section_idx], &mut state));
    }
    out
}

// ── Basic accumulation ─────────────────────────────────────────────────

#[test]
fn cat_section_sums_addval() {
    let results = run_parse(ONE_OF_EACH.as_bytes());
    let cat = results.iter().find(|r| r.section == "CAT").unwrap();
    assert_eq!(cat.value, "30"); // 10 + 20
}

#[test]
fn dog_section_sums_addval() {
    let results = run_parse(ONE_OF_EACH.as_bytes());
    let dog = results.iter().find(|r| r.section == "DOG").unwrap();
    assert_eq!(dog.value, "20"); // 5 + 15
}

// ── Edge cases ─────────────────────────────────────────────────────────

#[test]
fn no_addval_lines_yields_zero_sum() {
    let results = run_parse(NO_ADDVAL.as_bytes());
    // Numeric aggregations (sum, count) must be zero
    assert!(results.iter().filter(|r| r.label == "value" || r.label == "events").all(|r| r.value == "0"));
    // String aggregations (first, collect) must be empty
    assert!(results.iter().filter(|r| r.label == "host" || r.label == "tags").all(|r| r.value.is_empty()));
}

#[test]
fn no_sections_yields_no_results() {
    let results = run_parse(NO_SECTIONS.as_bytes());
    assert!(results.is_empty());
}

#[test]
fn preamble_addval_not_counted() {
    let results = run_parse(PREAMBLE.as_bytes());
    // One CAT section with four patterns — no DOG sections
    assert!(results.iter().all(|r| r.section == "CAT"));
    let sum = results.iter().find(|r| r.label == "value").unwrap();
    assert_eq!(sum.value, "42"); // preamble AddVal 999 must be excluded
}

// ── Multiple boundaries ────────────────────────────────────────────────

#[test]
fn multiple_boundaries_produce_independent_sums() {
    let results = run_parse(MULTI_BOUNDARY.as_bytes());
    let cat_sums: Vec<u64> = results
        .iter()
        .filter(|r| r.section == "CAT" && r.label == "value")
        .map(|r| r.value.parse().unwrap())
        .collect();
    let dog_sums: Vec<u64> = results
        .iter()
        .filter(|r| r.section == "DOG" && r.label == "value")
        .map(|r| r.value.parse().unwrap())
        .collect();
    assert_eq!(cat_sums, vec![100, 200]);
    assert_eq!(dog_sums, vec![50, 75]);
}

#[test]
fn result_labels_match_section_patterns() {
    let results = run_parse(ONE_OF_EACH.as_bytes());
    // CAT has four patterns; DOG has one
    let cat_labels: std::collections::HashSet<&str> =
        results.iter().filter(|r| r.section == "CAT").map(|r| r.label.as_str()).collect();
    assert_eq!(cat_labels, ["value", "events", "host", "tags"].iter().copied().collect());
    assert!(results.iter().filter(|r| r.section == "DOG").all(|r| r.label == "value"));
}

// ── CAT handler tests ──────────────────────────────────────────────────

#[test]
fn cat_count_handler_counts_events() {
    let results = run_parse(ONE_OF_EACH.as_bytes());
    let r = results.iter().find(|r| r.section == "CAT" && r.label == "events").unwrap();
    assert_eq!(r.value, "2"); // Event alpha, Event beta
}

#[test]
fn cat_first_handler_returns_first_host() {
    let results = run_parse(ONE_OF_EACH.as_bytes());
    let r = results.iter().find(|r| r.section == "CAT" && r.label == "host").unwrap();
    assert_eq!(r.value, "server1.example.com"); // first of two Host: lines
}

#[test]
fn cat_collect_handler_joins_tags() {
    let results = run_parse(ONE_OF_EACH.as_bytes());
    let r = results.iter().find(|r| r.section == "CAT" && r.label == "tags").unwrap();
    assert_eq!(r.value, "red, blue");
}

// ── Large input (10 000 lines per section) ─────────────────────────────

#[test]
fn large_cat_sum() {
    let data = large();
    let results = run_parse(&data);
    let r = results.iter().find(|r| r.section == "CAT" && r.label == "value").unwrap();
    assert_eq!(r.value, "10188918");
}

#[test]
fn large_cat_event_count() {
    let data = large();
    let results = run_parse(&data);
    let r = results.iter().find(|r| r.section == "CAT" && r.label == "events").unwrap();
    assert_eq!(r.value, "988");
}

#[test]
fn large_cat_first_host() {
    let data = large();
    let results = run_parse(&data);
    let r = results.iter().find(|r| r.section == "CAT" && r.label == "host").unwrap();
    assert_eq!(r.value, "gateway.edge");
}

#[test]
fn large_cat_tag_count() {
    let data = large();
    let results = run_parse(&data);
    let r = results.iter().find(|r| r.section == "CAT" && r.label == "tags").unwrap();
    // 1034 tags joined with ", " — verify count via delimiter
    assert_eq!(r.value.split(", ").count(), 1034);
}

#[test]
fn large_dog_sum() {
    let data = large();
    let results = run_parse(&data);
    let r = results.iter().find(|r| r.section == "DOG" && r.label == "value").unwrap();
    assert_eq!(r.value, "10031203");
}

// ── Handler and finalizer mechanics ───────────────────────────────────

#[test]
fn count_handler_counts_matches() {
    // Build a one-off section using the count handler
    let def = SectionDef {
        name: "TEST",
        header_pattern: r"^Test \d+",
        content_patterns: vec![ContentPattern { label: "hits", regex: r"AddVal \d+", handler: Handler::Count }],
        finalizer: Finalizer::Identity,
    };
    let re = Pattern::compile(def.content_patterns[0].regex).unwrap();
    let compiled = CompiledSection {
        patterns: vec![CompiledPattern { label: "hits".to_string(), regex: re, handler: Handler::Count }],
    };

    // Fake a boundary covering the entire input
    let data = b"AddVal 10\nAddVal 20\nAddVal 30\n";
    let boundary = SectionBoundary {
        section_idx: 0,
        name: "TEST".to_string(),
        start: 0,
        end: data.len() as u64,
        line_start: 1,
    };

    // The registry is fixed, so call the handler directly to verify count behaviour.
    let cap_refs: Vec<&[u8]> = compiled.patterns[0].regex.reported_matches(data);
    assert_eq!(handlers::count(&cap_refs), "3");
    let _ = (def, boundary);
}

#[test]
fn collect_handler_joins_captures() {
    let caps: &[&[u8]] = &[b"alpha", b"beta", b"gamma"];
    assert_eq!(handlers::collect(caps), "alpha, beta, gamma");
}

#[test]
fn first_handler_returns_first_only() {
    let caps: &[&[u8]] = &[b"first", b"second"];
    assert_eq!(handlers::first(caps), "first");
}

#[test]
fn first_handler_empty_returns_empty_string() {
    assert_eq!(handlers::first(&[]), "");
}

#[test]
fn finalizer_can_filter_results() {
    fn drop_zeros(mut results: Vec<ParseResult>) -> Vec<ParseResult> {
        results.retain(|r| r.value != "0");
        results
    }

    let input = vec![
        ParseResult { section: "X".into(), label: "a".into(), offset: 0, line: 1, value: "0".into() },
        ParseResult { section: "X".into(), label: "b".into(), offset: 0, line: 1, value: "42".into() },
    ];
    let output = drop_zeros(finalizers::identity(input));
    assert_eq!(output.len(), 1);
    assert_eq!(output[0].label, "b");
}
