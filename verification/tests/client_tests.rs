use mles::client::{accepts_protocol, console_line, input_name, proxy_frame, welcome};
use mles::frame::{client_key, FrameError};
use mles::hdr::{read_cid_from_hdr, read_hdr_len, read_key_from_hdr, HDRKEYL};

#[test]
fn protocol_header_values() {
    assert!(accepts_protocol(b"mles-websocket"));
    assert!(accepts_protocol(b"chat,mles-websocket"));
    assert!(accepts_protocol(b"mles-websocket,chat"));
    // pieces are compared untrimmed
    assert!(!accepts_protocol(b"chat, mles-websocket"));
    assert!(!accepts_protocol(b"mles"));
    assert!(!accepts_protocol(b""));
}

#[test]
fn proxy_frames() {
    let s = |x: &str| x.to_string();
    assert_eq!(
        proxy_frame(None, &s("k"), &s("a"), &s(""), &s("u"), &s("c"), &Vec::new()),
        Err(FrameError::BrokenPipe)
    );
    let buf = vec![1u8, 2, 3];
    let (frame, key) = proxy_frame(None, &s("k"), &s("a"), &s(""), &s("u"), &s("c"), &buf).unwrap();
    assert_eq!(key, client_key(&s("k"), &s("a"), &s(""), &s("u"), &s("c")));
    assert_eq!(frame.len(), HDRKEYL + 3);
    assert_eq!(read_hdr_len(&frame), 3);
    assert_eq!(read_key_from_hdr(&frame), key);
    assert_eq!(read_cid_from_hdr(&frame), key as u32);
    assert_eq!(&frame[HDRKEYL..], &buf[..]);
    // a key once set is kept
    let (_, key2) = proxy_frame(Some(9), &s("k"), &s("a"), &s(""), &s("x"), &s("y"), &buf).unwrap();
    assert_eq!(key2, 9);
}

#[test]
fn console_lines() {
    assert_eq!(console_line("alice", b"hi"), "alice:hi");
    assert_eq!(console_line("alice", b""), "");
    assert_eq!(console_line("a", &[0xff]), "a:\u{fffd}");
}

#[test]
fn input_names() {
    assert_eq!(input_name(b"alice\n"), "alice");
    assert_eq!(input_name(b"alice\r\n"), "alice");
    assert_eq!(input_name(b"\n"), "");
    assert_eq!(input_name(b"x"), "");
}

#[test]
fn welcome_text() {
    assert_eq!(welcome("alice", "example"), "Welcome alice to example!\n");
}
