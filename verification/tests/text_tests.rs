use mles::text::{bytes_eq, contains, str_chars, str_eq, trim};

#[test]
fn trim_like_std() {
    for s in ["  a b  ", "\t\nx\u{3000}", "", "   ", "abc", "\u{a0}é\u{2009}"] {
        assert_eq!(trim(s), s.trim());
    }
}

#[test]
fn contains_like_std() {
    for (h, n) in [("gzip, br, zstd", "zstd"), ("text/html", "text"), ("abc", ""), ("", "a"), ("aab", "ab"), ("ab", "abc")] {
        assert_eq!(contains(h, n), h.contains(n));
    }
}

#[test]
fn equality_and_chars() {
    assert!(str_eq("mles", "mles"));
    assert!(!str_eq("mles", "mle"));
    assert!(bytes_eq(&[1, 2], &[1, 2]));
    assert!(!bytes_eq(&[1, 2], &[2, 1]));
    assert_eq!(str_chars("aé"), vec!['a', 'é']);
}
