use file_parser::args::Args;
use file_parser::boundaries::priority::keep_first_at_each_position;
use file_parser::boundaries::{
    build_boundaries, compile_header_patterns, hits_from_spans, scan_boundaries, try_scan_boundaries, HeaderHit,
    SectionBoundary,
};
use file_parser::matching::{reported_from_spans, Pattern};
use file_parser::patterns::compile_all;
use file_parser::pipeline::local::{finish_local, local_plan, parse_local, PipelineError};
use file_parser::pipeline::remote::{plan_tick, ScanBehind};
use file_parser::sections::handlers::{checked_sum, collect, count, first, sum};
use file_parser::sections::{sections, Finalizer, Handler};
use file_parser::source::Source;
use file_parser::state::{AppState, ParseResult, WorkerState, WorkerStatus};
use file_parser::storage::{is_network_fs_name, is_network_magic};
use file_parser::text::{parse_u64_bytes, u64_to_decimal};
use file_parser::tui::{result_row, summary_rows, worker_label};
use file_parser::worker::{
    end_section, evaluate_section, parse_section, section_fits_check, start_section, try_parse_section,
};

const SAMPLE: &str = "intro\n\
Cat Boundary 1\n\
AddVal 10\n\
Event one\n\
Host: a.example\n\
Tag=x\n\
Dog Boundary 2\n\
AddVal 7\n\
Cat Boundary 3\n\
AddVal 1\n";

fn result(offset: u64, label: &str) -> ParseResult {
    ParseResult { section: "S".into(), label: label.into(), offset, line: 1, value: String::new() }
}

// ── Decimal text ───────────────────────────────────────────────────────

#[test]
fn decimal_text_of_numbers() {
    assert_eq!(u64_to_decimal(0), "0");
    assert_eq!(u64_to_decimal(9), "9");
    assert_eq!(u64_to_decimal(10), "10");
    assert_eq!(u64_to_decimal(1234567890), "1234567890");
    assert_eq!(u64_to_decimal(u64::MAX), "18446744073709551615");
}

#[test]
fn decimal_parsing_follows_u64_rules() {
    assert_eq!(parse_u64_bytes(b"42"), Some(42));
    assert_eq!(parse_u64_bytes(b"+5"), Some(5));
    assert_eq!(parse_u64_bytes(b"007"), Some(7));
    assert_eq!(parse_u64_bytes(b"18446744073709551615"), Some(u64::MAX));
    assert_eq!(parse_u64_bytes(b"18446744073709551616"), None);
    assert_eq!(parse_u64_bytes(b"99999999999999999999"), None);
    assert_eq!(parse_u64_bytes(b""), None);
    assert_eq!(parse_u64_bytes(b"+"), None);
    assert_eq!(parse_u64_bytes(b"-5"), None);
    assert_eq!(parse_u64_bytes(b"1 2"), None);
    assert_eq!(parse_u64_bytes("٣".as_bytes()), None); // a non-ASCII digit
    // the same rules as std
    for s in ["0", "+0", "123", "+", "-1", "12a", "", "18446744073709551616"] {
        assert_eq!(parse_u64_bytes(s.as_bytes()), s.parse::<u64>().ok());
    }
}

#[test]
fn decimal_text_parses_back() {
    for n in [0u64, 1, 9, 10, 99, 100, 4096, u64::MAX - 1, u64::MAX] {
        assert_eq!(parse_u64_bytes(u64_to_decimal(n).as_bytes()), Some(n));
    }
}

// ── Handlers ───────────────────────────────────────────────────────────

#[test]
fn sum_skips_non_numbers() {
    let caps: &[&[u8]] = &[b"1", b"x", b"+2", b"-3", b"40"];
    assert_eq!(sum(caps), "43");
    assert_eq!(sum(&[]), "0");
}

#[test]
fn sum_adds_up_over_runs_and_ignores_order() {
    let a: &[&[u8]] = &[b"1", b"x", b"20"];
    let b: &[&[u8]] = &[b"300"];
    let both: &[&[u8]] = &[b"1", b"x", b"20", b"300"];
    let shuffled: &[&[u8]] = &[b"300", b"x", b"1", b"20"];
    assert_eq!(sum(a), "21");
    assert_eq!(sum(b), "300");
    assert_eq!(sum(both), "321");
    assert_eq!(sum(shuffled), "321");
    let total: u64 = sum(a).parse::<u64>().unwrap() + sum(b).parse::<u64>().unwrap();
    assert_eq!(sum(both).parse::<u64>().unwrap(), total);
}

#[test]
fn collect_splits_back_into_its_captures() {
    let caps: &[&[u8]] = &[b"alpha", b"b c", b"", b"d,e", "\u{e9}t\u{e9}".as_bytes()];
    let joined = collect(caps);
    assert_eq!(joined, "alpha, b c, , d,e, \u{e9}t\u{e9}");
    let parts: Vec<&str> = joined.split(", ").collect();
    assert_eq!(parts, vec!["alpha", "b c", "", "d,e", "\u{e9}t\u{e9}"]);
    let tags: Vec<String> = (0..1034).map(|n| format!("t{n}")).collect();
    let refs: Vec<&[u8]> = tags.iter().map(|t| t.as_bytes()).collect();
    let joined = collect(&refs);
    assert_eq!(joined.split(", ").count(), 1034);
    assert_eq!(joined.split(", ").last(), Some("t1033"));
}

#[test]
fn checked_sum_reports_overflow() {
    let caps: &[&[u8]] = &[b"18446744073709551615", b"1"];
    assert_eq!(checked_sum(caps), None);
    let caps: &[&[u8]] = &[b"18446744073709551614", b"1"];
    assert_eq!(checked_sum(caps), Some(u64::MAX));
}

#[test]
fn count_and_collect_of_nothing() {
    assert_eq!(count(&[]), "0");
    assert_eq!(collect(&[]), "");
    let caps: &[&[u8]] = &[b"only"];
    assert_eq!(collect(caps), "only");
}

#[test]
fn invalid_utf8_is_replaced() {
    let caps: &[&[u8]] = &[b"ab\xffcd", b"ok"];
    assert_eq!(first(caps), "ab\u{FFFD}cd");
    assert_eq!(collect(caps), "ab\u{FFFD}cd, ok");
}

#[test]
fn handler_apply_matches_handlers() {
    let caps: &[&[u8]] = &[b"3", b"4"];
    assert_eq!(Handler::Sum.apply(caps), "7");
    assert_eq!(Handler::Count.apply(caps), "2");
    assert_eq!(Handler::First.apply(caps), "3");
    assert_eq!(Handler::Collect.apply(caps), "3, 4");
    let rs = vec![result(1, "a")];
    assert_eq!(Finalizer::Identity.apply(rs).len(), 1);
}

// ── Patterns ───────────────────────────────────────────────────────────

#[test]
fn invalid_pattern_is_reported() {
    let e = match Pattern::compile("AddVal (") {
        Err(e) => e,
        Ok(_) => panic!("compiled an invalid pattern"),
    };
    assert_eq!(e.pattern, "AddVal (");
    assert!(!e.reason.is_empty());
}

#[test]
fn patterns_are_multi_line() {
    let p = Pattern::compile(r"^Event \w+").unwrap();
    let spans = p.find_all(b"Event a\nx\nEvent b\n");
    assert_eq!(spans, vec![(0, 7), (10, 17)]);
}

#[test]
fn reported_matches_prefer_group_one() {
    let with_group = Pattern::compile(r"AddVal (\d+)").unwrap();
    assert_eq!(with_group.reported_matches(b"AddVal 12 AddVal 3"), vec![&b"12"[..], &b"3"[..]]);
    let without = Pattern::compile(r"AddVal \d+").unwrap();
    assert_eq!(without.reported_matches(b"AddVal 12"), vec![&b"AddVal 12"[..]]);
    let optional = Pattern::compile(r"x(y)?").unwrap();
    assert_eq!(optional.reported_matches(b"xy x"), vec![&b"y"[..], &b"x"[..]]);
}

#[test]
fn registry_compiles() {
    let defs = sections();
    assert_eq!(defs.len(), 2);
    assert_eq!(defs[0].name, "CAT");
    assert_eq!(defs[1].name, "DOG");
    let compiled = compile_all().unwrap();
    assert_eq!(compiled.len(), 2);
    assert_eq!(compiled[0].patterns.len(), 4);
    assert_eq!(compiled[0].patterns[2].label, "host");
    assert_eq!(compiled[1].patterns.len(), 1);
    assert_eq!(compile_header_patterns().unwrap().len(), 2);
}

// ── Boundaries ─────────────────────────────────────────────────────────

#[test]
fn boundaries_record_offsets_and_lines() {
    let data = SAMPLE.as_bytes();
    let b = scan_boundaries(data);
    assert_eq!(b.len(), 3);
    assert_eq!((b[0].name.as_str(), b[0].start, b[0].end, b[0].line_start), ("CAT", 21, 63, 3));
    assert_eq!((b[1].name.as_str(), b[1].start, b[1].end, b[1].line_start), ("DOG", 78, 87, 8));
    assert_eq!((b[2].name.as_str(), b[2].start, b[2].end, b[2].line_start), ("CAT", 102, 111, 10));
    // every section starts just past a newline
    for x in &b {
        assert_eq!(data[x.start as usize - 1], b'\n');
    }
}

#[test]
fn header_without_trailing_newline_has_empty_content() {
    let data = b"Dog Boundary 9";
    let b = scan_boundaries(data);
    assert_eq!(b.len(), 1);
    assert_eq!((b[0].start, b[0].end), (14, 14));
}

#[test]
fn try_scan_accepts_registry_headers() {
    let data = SAMPLE.as_bytes();
    let b = try_scan_boundaries(data).unwrap();
    assert_eq!(b.len(), scan_boundaries(data).len());
}

// ── Worker ─────────────────────────────────────────────────────────────

#[test]
fn parse_section_records_a_finished_worker() {
    let data = SAMPLE.as_bytes();
    let b = scan_boundaries(data);
    let compiled = compile_all().unwrap();
    let mut state = AppState::new(0, false, "t", true);
    let rs = parse_section(data, &b[0], &compiled[0], &mut state);
    assert_eq!(rs.len(), 4);
    assert!(rs.iter().all(|r| r.offset == 21 && r.line == 3 && r.section == "CAT"));
    assert_eq!(rs[0].value, "10");
    assert_eq!(rs[1].value, "1");
    assert_eq!(rs[2].value, "a.example");
    assert_eq!(rs[3].value, "x");
    assert_eq!(state.workers.len(), 1);
    let w = &state.workers[0];
    assert_eq!(w.section_name, "CAT");
    assert_eq!((w.bytes_done, w.bytes_total, w.matches), (42, 42, 4));
    assert_eq!(w.status, WorkerStatus::Done);
}

#[test]
fn preamble_does_not_change_section_results() {
    let compiled = compile_all().unwrap();
    let plain = "Cat Boundary 1\nAddVal 5\n";
    let with_preamble = "AddVal 100\nTag=zzz\nCat Boundary 1\nAddVal 5\n";
    let mut state = AppState::new(0, false, "t", true);
    let a = scan_boundaries(plain.as_bytes());
    let b = scan_boundaries(with_preamble.as_bytes());
    let ra = parse_section(plain.as_bytes(), &a[0], &compiled[0], &mut state);
    let rb = parse_section(with_preamble.as_bytes(), &b[0], &compiled[0], &mut state);
    let va: Vec<&String> = ra.iter().map(|r| &r.value).collect();
    let vb: Vec<&String> = rb.iter().map(|r| &r.value).collect();
    assert_eq!(va, vb);
}

#[test]
fn overflowing_sum_is_refused() {
    let data = b"Cat Boundary 1\nAddVal 18446744073709551615\nAddVal 1\n";
    let b = scan_boundaries(data);
    let compiled = compile_all().unwrap();
    assert!(!section_fits_check(data, &b[0], &compiled[0]));
    assert!(evaluate_section(data, &b[0], &compiled[0]).is_none());
    let mut state = AppState::new(0, false, "t", true);
    assert!(try_parse_section(data, &b[0], &compiled[0], &mut state).is_none());
    assert!(state.workers.is_empty());
}

#[test]
fn boundary_outside_data_is_refused() {
    let data = b"AddVal 1\n";
    let compiled = compile_all().unwrap();
    let mut state = AppState::new(0, false, "t", true);
    let beyond = SectionBoundary { section_idx: 0, name: "CAT".into(), start: 0, end: 99, line_start: 1 };
    assert!(try_parse_section(data, &beyond, &compiled[0], &mut state).is_none());
    let unknown = SectionBoundary { section_idx: 5, name: "X".into(), start: 0, end: 1, line_start: 1 };
    assert!(try_parse_section(data, &unknown, &compiled[0], &mut state).is_none());
    let inverted = SectionBoundary { section_idx: 1, name: "DOG".into(), start: 5, end: 2, line_start: 1 };
    assert!(try_parse_section(data, &inverted, &compiled[1], &mut state).is_none());
}

// ── Local pipeline ─────────────────────────────────────────────────────

#[test]
fn local_pipeline_parses_and_orders_results() {
    let data = SAMPLE.as_bytes();
    let mut state = AppState::new(data.len() as u64, false, "t", true);
    assert_eq!(parse_local(data, &mut state).unwrap(), 3);
    assert!(state.is_complete());
    assert_eq!(state.net_bytes_done, data.len() as u64);
    assert_eq!(state.workers.len(), 3);
    assert_eq!(state.results.len(), 4 + 1 + 4);
    for w in state.results.windows(2) {
        assert!(w[0].offset <= w[1].offset);
    }
    // within a section the pattern order is kept
    let labels: Vec<&str> = state.results[..4].iter().map(|r| r.label.as_str()).collect();
    assert_eq!(labels, ["value", "events", "host", "tags"]);
}

#[test]
fn local_pipeline_without_sections_only_completes() {
    let mut state = AppState::new(0, false, "t", true);
    assert_eq!(parse_local(b"nothing\n", &mut state).unwrap(), 0);
    assert!(state.is_complete());
    assert!(state.results.is_empty());
    assert!(state.workers.is_empty());
}

#[test]
fn local_pipeline_reports_rejected_section() {
    let data = b"Dog Boundary 1\nAddVal 5\nCat Boundary 2\nAddVal 18446744073709551615\nAddVal 1\n";
    let mut state = AppState::new(0, false, "t", true);
    match parse_local(data, &mut state) {
        Err(PipelineError::SectionRejected(i)) => assert_eq!(i, 1),
        other => panic!("unexpected {:?}", other),
    }
}

#[test]
fn local_plan_compiles_only_where_there_are_sections() {
    let plan = local_plan(SAMPLE.as_bytes()).unwrap();
    assert_eq!(plan.boundaries.len(), 3);
    assert_eq!(plan.compiled.len(), sections().len());
    assert_eq!(plan.compiled[0].patterns.len(), 4);
    let none = local_plan(b"nothing\n").unwrap();
    assert!(none.boundaries.is_empty() && none.compiled.is_empty());
}

#[test]
fn finish_local_merges_records_and_completes() {
    let mut state = AppState::new(99, false, "t", true);
    state.merge_results(vec![result(20, "a")]);
    finish_local(&mut state, vec![result(30, "b"), result(10, "c"), result(20, "d")], 42);
    let got: Vec<(u64, &str)> = state.results.iter().map(|r| (r.offset, r.label.as_str())).collect();
    assert_eq!(got, vec![(10, "c"), (20, "a"), (20, "d"), (30, "b")]);
    assert_eq!((state.net_bytes_done, state.net_bytes_total), (42, 99));
    assert!(state.is_complete());
}

// ── Remote scanning behind a writer ────────────────────────────────────

#[test]
fn scan_behind_hands_out_sections_once_their_end_is_known() {
    let full = SAMPLE.as_bytes();
    let headers = compile_header_patterns().unwrap();
    let mut scan = ScanBehind::new();
    let mut got: Vec<SectionBoundary> = Vec::new();

    // a partial line is not scanned yet
    let out = scan.step(&full[..10], false, &headers).unwrap();
    assert!(out.is_empty());
    assert_eq!(scan.scanned_to(), 6);

    // the first CAT section is open until the DOG header arrives
    let out = scan.step(&full[..60], false, &headers).unwrap();
    assert!(out.is_empty());
    assert_eq!(scan.hit_count(), 1);

    let out = scan.step(&full[..100], false, &headers).unwrap();
    assert_eq!(out.len(), 1);
    got.extend(out);

    let out = scan.step(full, true, &headers).unwrap();
    assert_eq!(out.len(), 2);
    got.extend(out);
    assert_eq!(scan.dispatched(), 3);

    let whole = scan_boundaries(full);
    assert_eq!(got.len(), whole.len());
    for (a, b) in got.iter().zip(whole.iter()) {
        assert_eq!((a.section_idx, &a.name, a.start, a.end, a.line_start), (b.section_idx, &b.name, b.start, b.end, b.line_start));
    }
}

#[test]
fn scan_behind_final_tick_hands_out_last_section() {
    let full = SAMPLE.as_bytes();
    let headers = compile_header_patterns().unwrap();
    let mut scan = ScanBehind::new();
    let out = scan.step(full, false, &headers).unwrap();
    assert_eq!(out.len(), 2);
    assert_eq!(scan.scanned_to(), full.len());
    // everything was scanned already; the tick that sees writing done hands
    // out the last section although no byte is new
    let out = scan.step(full, true, &headers).unwrap();
    assert_eq!(out.len(), 1);
    assert_eq!((out[0].name.as_str(), out[0].end), ("CAT", full.len() as u64));
    assert_eq!(scan.dispatched(), 3);
    assert_eq!(scan.hit_count(), 3);
    // a further tick has nothing left to hand out
    let out = scan.step(full, true, &headers).unwrap();
    assert!(out.is_empty());
}

#[test]
fn scan_behind_of_empty_source() {
    let headers = compile_header_patterns().unwrap();
    let mut scan = ScanBehind::new();
    let out = scan.step(&[], true, &headers).unwrap();
    assert!(out.is_empty());
    assert_eq!((scan.scanned_to(), scan.dispatched(), scan.hit_count()), (0, 0, 0));
}

// ── State ──────────────────────────────────────────────────────────────

#[test]
fn state_flags_are_independent_and_sticky() {
    let mut s = AppState::new(123, true, "HTTP download", false);
    assert_eq!((s.net_bytes_done, s.net_bytes_total, s.remote), (0, 123, true));
    assert!(!s.is_complete() && !s.is_cancelled() && !s.is_silent());
    s.cancel();
    assert!(s.is_cancelled() && !s.is_complete());
    s.set_complete();
    s.set_complete();
    assert!(s.is_cancelled() && s.is_complete());
}

#[test]
fn completion_is_set_only_by_set_complete() {
    let mut s = AppState::new(10, false, "t", true);
    let i = s.register_worker("CAT".into(), 4);
    assert!(!s.is_complete());
    s.finish_worker(i, 1);
    s.merge_results(vec![result(3, "a")]);
    s.cancel();
    let j = s.register_worker("DOG".into(), 2);
    s.fail_worker(j);
    assert!(!s.is_complete());
    s.set_complete();
    assert!(s.is_complete());
    s.cancel();
    s.merge_results(vec![result(1, "b")]);
    let k = s.register_worker("CAT".into(), 1);
    s.finish_worker(k, 0);
    assert!(s.is_complete());
}

#[test]
fn failed_worker_keeps_its_counts() {
    let mut s = AppState::new(0, false, "t", true);
    let i = s.register_worker("CAT".into(), 9);
    let j = s.register_worker("DOG".into(), 3);
    s.fail_worker(i);
    let w = &s.workers[0];
    assert_eq!((w.section_name.as_str(), w.bytes_done, w.bytes_total, w.matches, w.status), ("CAT", 0, 9, 0, WorkerStatus::Failed));
    assert_eq!(s.workers[j].status, WorkerStatus::Running);
    assert_eq!(worker_label(s.workers[0].status, 0), "FAILED");
}

#[test]
fn merge_orders_many_results_stably() {
    let mut s = AppState::new(0, false, "t", true);
    let mut batch = Vec::new();
    for n in 0..200u64 {
        let mut r = result((n * 37) % 11, "x");
        r.value = n.to_string();
        batch.push(r);
    }
    s.merge_results(batch);
    assert_eq!(s.results.len(), 200);
    for w in s.results.windows(2) {
        let (a, b) = (&w[0], &w[1]);
        assert!(a.offset < b.offset || (a.offset == b.offset && a.value.parse::<u64>().unwrap() < b.value.parse::<u64>().unwrap()));
    }
}

#[test]
fn merge_keeps_arrival_order_at_equal_offsets() {
    let mut s = AppState::new(0, false, "t", true);
    s.merge_results(vec![result(50, "a"), result(10, "b"), result(50, "c")]);
    s.merge_results(vec![result(10, "d"), result(0, "e")]);
    let got: Vec<(u64, &str)> = s.results.iter().map(|r| (r.offset, r.label.as_str())).collect();
    assert_eq!(got, vec![(0, "e"), (10, "b"), (10, "d"), (50, "a"), (50, "c")]);
}

#[test]
fn workers_register_and_finish() {
    let mut s = AppState::new(0, false, "t", true);
    let w = WorkerState::new("CAT".into(), 10);
    assert_eq!((w.bytes_done, w.matches, w.status), (0, 0, WorkerStatus::Waiting));
    let i = s.register_worker("CAT".into(), 10);
    let j = s.register_worker("DOG".into(), 5);
    assert_eq!((i, j), (0, 1));
    assert_eq!(s.workers[1].status, WorkerStatus::Running);
    s.finish_worker(0, 7);
    assert_eq!((s.workers[0].bytes_done, s.workers[0].matches, s.workers[0].status), (10, 7, WorkerStatus::Done));
    assert_eq!(s.workers[1].status, WorkerStatus::Running);
}

#[test]
fn worker_labels() {
    assert_eq!(worker_label(WorkerStatus::Waiting, 3), "waiting");
    assert_eq!(worker_label(WorkerStatus::Running, 3), "3 matches");
    assert_eq!(worker_label(WorkerStatus::Done, 12), "done \u{2014} 12 matches");
    assert_eq!(worker_label(WorkerStatus::Failed, 1), "FAILED");
}

// ── Sources, options, storage ──────────────────────────────────────────

#[test]
fn sources_keep_their_text() {
    let u = Source::parse("FTPS://host/x");
    assert!(matches!(u, Source::Url(_)));
    assert_eq!(u.display(), "FTPS://host/x");
    assert_eq!(u.as_path(), None);
    assert_eq!(u.transfer_label(), "HTTP download");
    let f = Source::parse("/data/big.txt");
    assert_eq!(f.as_path(), Some("/data/big.txt"));
    assert_eq!(f.display(), "/data/big.txt");
    assert_eq!(f.transfer_label(), "Network transfer");
    assert!(matches!(Source::parse("http:/x"), Source::File(_)));
    assert!(matches!(Source::parse("ftp:"), Source::File(_)));
}

#[test]
fn forced_strategy_and_worker_count() {
    let mut a = Args { file: "f".into(), gui: false, quiet: false, workers: None, force_local: false, force_remote: false };
    assert_eq!(a.forced_remote(), None);
    assert_eq!(a.worker_count(6), 6);
    a.force_local = true;
    assert_eq!(a.forced_remote(), Some(false));
    a.force_remote = true;
    assert_eq!(a.forced_remote(), Some(true));
    a.workers = Some(2);
    assert_eq!(a.worker_count(6), 2);
}

#[test]
fn network_filesystems_are_recognised() {
    assert!(is_network_magic(0x6969));
    assert!(is_network_magic(0xFF534D42));
    assert!(is_network_magic(0x5346414F));
    assert!(!is_network_magic(0xEF53)); // ext4
    assert!(is_network_fs_name("nfs"));
    assert!(is_network_fs_name("SMBFS"));
    assert!(is_network_fs_name("WebDav"));
    assert!(!is_network_fs_name("apfs"));
    assert!(!is_network_fs_name("nfs4"));
    assert!(!is_network_fs_name(""));
}

#[test]
fn hits_from_given_spans() {
    let data = b"Cat Boundary 1\nabc\nDog Boundary 2";
    let hits = hits_from_spans(data, 100, 1, &[(0, 14), (19, 33)]);
    assert_eq!(hits.len(), 2);
    assert_eq!((hits[0].start, hits[0].content_start, hits[0].section_idx), (100, 115, 1));
    // no newline after the second match: its content starts at the end of the data
    assert_eq!((hits[1].start, hits[1].content_start, hits[1].section_idx), (119, 133, 1));
}

#[test]
fn reported_bytes_from_given_spans() {
    let hay = b"AddVal 12 AddVal 3";
    let got = reported_from_spans(hay, &[((0, 9), Some((7, 9))), ((10, 18), None)]);
    assert_eq!(got, vec![&b"12"[..], &b"AddVal 3"[..]]);
}

#[test]
fn header_ties_keep_the_first_registry_entry() {
    let hits = [
        HeaderHit { start: 0, content_start: 15, section_idx: 0 },
        HeaderHit { start: 0, content_start: 15, section_idx: 1 },
        HeaderHit { start: 17, content_start: 32, section_idx: 1 },
    ];
    let kept = keep_first_at_each_position(&hits);
    let got: Vec<(usize, usize)> = kept.iter().map(|h| (h.start, h.section_idx)).collect();
    assert_eq!(got, vec![(0, 0), (17, 1)]);
    let data = b"Cat Boundary 1\nx\nDog Boundary 2\ny\n";
    let b = build_boundaries(data, &kept);
    assert_eq!(b.len(), 2);
    assert_eq!((b[0].name.as_str(), b[0].start, b[0].end), ("CAT", 15, 17));
    assert!(b.iter().all(|x| x.start <= x.end));
}

#[test]
fn build_boundaries_from_given_hits() {
    let data = b"Dog Boundary 1\nx\nCat Boundary 2\ny\n";
    let hits = [
        HeaderHit { start: 0, content_start: 15, section_idx: 1 },
        HeaderHit { start: 17, content_start: 32, section_idx: 0 },
    ];
    let b = build_boundaries(data, &hits);
    assert_eq!((b[0].name.as_str(), b[0].start, b[0].end, b[0].line_start), ("DOG", 15, 17, 2));
    assert_eq!((b[1].name.as_str(), b[1].start, b[1].end, b[1].line_start), ("CAT", 32, 34, 4));
}

#[test]
fn summary_rows_are_aligned_like_the_table() {
    let mut r = result(15, "value");
    r.section = "CAT".into();
    r.value = "10".into();
    assert_eq!(result_row(&r), format!("  [{:<10}] {:<12} @ {:>10}  {}", "CAT", "value", 15, "10"));
    let mut long = result(12345678901, "\u{e9}v\u{e9}nements-long");
    long.section = "SECTION-NAME-LONG".into();
    long.value = "x".into();
    assert_eq!(
        result_row(&long),
        format!("  [{:<10}] {:<12} @ {:>10}  {}", "SECTION-NAME-LONG", "\u{e9}v\u{e9}nements-long", 12345678901u64, "x")
    );
    let few: Vec<ParseResult> = (0..3).map(|n| result(n, "a")).collect();
    assert_eq!(summary_rows(&few).len(), 3);
    let many: Vec<ParseResult> = (0..25).map(|n| result(n, "a")).collect();
    let rows = summary_rows(&many);
    assert_eq!(rows.len(), 21);
    assert_eq!(rows[19], result_row(&many[19]));
    assert_eq!(rows[20], "  ... and 5 more");
    assert!(summary_rows(&[]).is_empty());
}

#[test]
fn streamed_scan_at_every_prefix_gives_the_whole_scan() {
    let full = SAMPLE.as_bytes();
    let headers = compile_header_patterns().unwrap();
    let whole = scan_boundaries(full);
    for step in 1..=full.len() {
        let mut scan = ScanBehind::new();
        let mut got: Vec<SectionBoundary> = Vec::new();
        let mut written = 0;
        loop {
            written = (written + step).min(full.len());
            let done = written == full.len();
            got.extend(scan.step(&full[..written], done, &headers).unwrap());
            if done {
                break;
            }
        }
        assert_eq!(got.len(), whole.len(), "step {step}");
        for (a, b) in got.iter().zip(whole.iter()) {
            assert_eq!((a.section_idx, &a.name, a.start, a.end, a.line_start), (b.section_idx, &b.name, b.start, b.end, b.line_start));
        }
    }
}

#[test]
fn tick_plan_scans_then_stops() {
    let p = plan_tick(10, false, false, 4);
    assert!(p.scan && !p.stop);
    let p = plan_tick(4, false, false, 4);
    assert!(!p.scan && !p.stop);
    let p = plan_tick(4, true, false, 4);
    assert!(p.scan && p.stop);
    let p = plan_tick(10, true, true, 4);
    assert!(!p.scan && p.stop);
    let p = plan_tick(0, true, false, 0);
    assert!(p.scan && p.stop);
}

#[test]
fn sections_start_and_end_around_their_evaluation() {
    let data = SAMPLE.as_bytes();
    let bs = scan_boundaries(data);
    let compiled = compile_all().unwrap();
    let mut state = AppState::new(0, false, "t", true);
    let mut outside = bs[0].clone();
    outside.end = data.len() as u64 + 1;
    assert_eq!(start_section(data, &outside, &mut state), None);
    assert!(state.workers.is_empty());
    let idx = start_section(data, &bs[0], &mut state).unwrap();
    assert_eq!(idx, 0);
    assert_eq!((state.workers[0].status, state.workers[0].bytes_done), (WorkerStatus::Running, 0));
    let outcome = evaluate_section(data, &bs[0], &compiled[bs[0].section_idx]);
    let results = end_section(&mut state, idx, outcome).unwrap();
    assert_eq!(results.len(), 4);
    assert_eq!(state.workers[0].status, WorkerStatus::Done);
    assert_eq!(state.workers[0].bytes_done, bs[0].end - bs[0].start);
    let j = start_section(data, &bs[1], &mut state).unwrap();
    assert!(end_section(&mut state, j, None).is_none());
    assert_eq!((state.workers[1].status, state.workers[1].matches), (WorkerStatus::Failed, 0));
}
