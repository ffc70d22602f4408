use mles::mina::{is_fresh, status_colors, words, Color};
use mles::text::white;

#[test]
fn words_like_split_whitespace() {
    for s in ["Synced, last proof time 5000", "  a\tb\nc  ", "", "\u{3000}x\u{a0}y", "one"] {
        let expect: Vec<String> = s.split_whitespace().map(|w| w.to_string()).collect();
        assert_eq!(words(s), expect);
    }
}

#[test]
fn white_matches_std() {
    for u in 0u32..0x3100 {
        if let Some(c) = char::from_u32(u) {
            assert_eq!(white(c), c.is_whitespace(), "{:x}", u);
        }
    }
}

#[test]
fn status_colors_cases() {
    assert_eq!(
        status_colors("Synced, last proof time 5000"),
        (Color::Green, Color::Green, Color::Green)
    );
    assert_eq!(
        status_colors("Catchup, time 120000"),
        (Color::Yellow, Color::Yellow, Color::Yellow)
    );
    assert_eq!(
        status_colors("Synced,, time 200000"),
        (Color::Green, Color::Red, Color::Red)
    );
    assert_eq!(status_colors(""), (Color::Unknown, Color::Unknown, Color::Green));
    assert_eq!(status_colors("Synced time"), (Color::Green, Color::Unknown, Color::Green));
    assert_eq!(
        status_colors("Offline time abc time 7"),
        (Color::Unknown, Color::Green, Color::Green)
    );
    assert_eq!(
        status_colors("Synced time x 7 time 99999"),
        (Color::Green, Color::Green, Color::Green)
    );
    assert_eq!(Color::Yellow.name(), "yellow");
}

#[test]
fn freshness() {
    assert!(is_fresh(60));
    assert!(!is_fresh(61));
}
