use file_parser::source::is_url;

#[test]
fn urls_are_detected() {
    assert!(is_url("http://example.com/file.txt"));
    assert!(is_url("https://example.com/file.txt"));
    assert!(is_url("ftp://files.example.com/data"));
    assert!(is_url("HTTPS://EXAMPLE.COM/FILE")); // case-insensitive
}

#[test]
fn paths_are_not_urls() {
    assert!(!is_url("/tmp/file.txt"));
    assert!(!is_url("C:\\data\\file.txt"));
    assert!(!is_url("\\\\server\\share\\file.txt")); // UNC
    assert!(!is_url("//server/share/file.txt")); // Unix UNC-style
    assert!(!is_url("relative/path/file.txt"));
}
