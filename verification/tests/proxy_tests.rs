use mles::proxy::{forward_request_header, forward_response_header, prefix_segments, upstream_url};

#[test]
fn segments_of_prefixes() {
    assert_eq!(prefix_segments("api/keeper"), vec!["api".to_string(), "keeper".to_string()]);
    assert_eq!(prefix_segments("/api//keeper/"), vec!["api".to_string(), "keeper".to_string()]);
    assert_eq!(prefix_segments("keeper"), vec!["keeper".to_string()]);
    assert!(prefix_segments("").is_empty());
    assert!(prefix_segments("///").is_empty());
}

#[test]
fn segments_match_split() {
    for p in ["a/b/c", "//x", "y//", "ä/ö"] {
        let expect: Vec<String> =
            p.split('/').filter(|s| !s.is_empty()).map(|s| s.to_string()).collect();
        assert_eq!(prefix_segments(p), expect);
    }
}

#[test]
fn upstream_urls() {
    assert_eq!(upstream_url("http://localhost:8080", "", ""), "http://localhost:8080");
    assert_eq!(upstream_url("http://localhost:8080", "a/b", ""), "http://localhost:8080/a/b");
    assert_eq!(upstream_url("http://h", "", "q=1"), "http://h?q=1");
    assert_eq!(upstream_url("http://h", "p", "q=1&r=2"), "http://h/p?q=1&r=2");
}

#[test]
fn header_forwarding() {
    assert!(!forward_request_header("host"));
    assert!(forward_request_header("accept"));
    assert!(!forward_response_header("transfer-encoding"));
    assert!(forward_response_header("content-type"));
}
