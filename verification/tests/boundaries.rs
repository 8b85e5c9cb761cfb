use file_parser::boundaries::scan_boundaries;

const ONE_OF_EACH: &str = "Cat Boundary 1\n\
AddVal 10\n\
Event alpha\n\
Host: server1.example.com\n\
Tag=red\n\
noise line\n\
AddVal 20\n\
Event beta\n\
Host: server2.example.com\n\
Tag=blue\n\
Dog Boundary 1\n\
AddVal 5\n\
unrelated\n\
AddVal 15\n";

const MULTI_BOUNDARY: &str = "Cat Boundary 1\n\
AddVal 40\n\
AddVal 60\n\
Dog Boundary 1\n\
AddVal 50\n\
Cat Boundary 2\n\
AddVal 150\n\
AddVal 50\n\
Dog Boundary 2\n\
AddVal 25\n\
AddVal 50\n";

const NO_SECTIONS: &str = "just some text\n\
AddVal 10\n\
no headers here\n";

const PREAMBLE: &str = "preamble line\n\
AddVal 999\n\
Cat Boundary 7\n\
AddVal 40\n\
AddVal 2\n";

#[test]
fn finds_one_cat_and_one_dog() {
    let data = ONE_OF_EACH.as_bytes();
    let b = scan_boundaries(data);
    assert_eq!(b.len(), 2);
    assert_eq!(b[0].name, "CAT");
    assert_eq!(b[1].name, "DOG");
}

#[test]
fn no_headers_returns_empty() {
    let data = NO_SECTIONS.as_bytes();
    let b = scan_boundaries(data);
    assert!(b.is_empty());
}

#[test]
fn preamble_not_captured_in_section() {
    let data = PREAMBLE.as_bytes();
    let b = scan_boundaries(data);
    assert_eq!(b.len(), 1);
    assert_eq!(b[0].name, "CAT");
    // The CAT section content must start after the header line, not at byte 0
    assert!(b[0].start > 0);
}

#[test]
fn multiple_boundaries_ordered_by_position() {
    let data = MULTI_BOUNDARY.as_bytes();
    let b = scan_boundaries(data);
    assert_eq!(b.len(), 4);
    assert_eq!(b[0].name, "CAT");
    assert_eq!(b[1].name, "DOG");
    assert_eq!(b[2].name, "CAT");
    assert_eq!(b[3].name, "DOG");
    // Offsets must be strictly increasing
    for w in b.windows(2) {
        assert!(w[0].start < w[1].start);
    }
}

#[test]
fn sections_do_not_overlap() {
    let data = MULTI_BOUNDARY.as_bytes();
    let b = scan_boundaries(data);
    for w in b.windows(2) {
        assert!(w[0].end <= w[1].start, "sections overlap: end={} start={}", w[0].end, w[1].start);
    }
}

#[test]
fn last_section_end_equals_file_length() {
    let data = ONE_OF_EACH.as_bytes();
    let b = scan_boundaries(data);
    assert_eq!(b.last().unwrap().end, data.len() as u64);
}
