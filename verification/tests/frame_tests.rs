use mles::frame::{
    client_key, concat_bytes, key_base, frame_message, message_decode, msg_decode, msg_encode, process_hdr,
    process_key, process_msg, split_frame, FrameError,
};
use mles::hdr::{read_key_from_hdr, write_hdr, write_hdr_with_key, HDRKEYL};
use mles::msg::{Msg, ResyncMsg};
use mles::sip::do_hash;
use siphasher::sip::SipHasher;
use std::hash::{Hash, Hasher};

#[test]
fn process_hdr_cases() {
    assert_eq!(process_hdr(&[]), Err(FrameError::BrokenPipe));
    assert_eq!(process_hdr(&[b'X', 0, 0, 1, 0, 0, 0, 0]), Err(FrameError::IncorrectHeader));
    assert_eq!(process_hdr(&write_hdr(0, 1)), Err(FrameError::IncorrectHeaderLen));
    assert_eq!(process_hdr(&write_hdr(122, 1)), Ok(122));
}

#[test]
fn process_msg_cases() {
    assert_eq!(process_msg(&[]), Err(FrameError::IncorrectMessageLen));
    assert_eq!(process_msg(&[1]), Ok(()));
}

#[test]
fn message_decode_plain_frame() {
    let hdr_key = write_hdr_with_key(3, 5);
    let message = vec![1u8, 2, 3];
    let out = message_decode(&message, &hdr_key, &ResyncMsg::new(&Vec::new()));
    assert_eq!(out, vec![concat_bytes(&hdr_key, &message)]);
}

#[test]
fn message_decode_resync_frame() {
    let hdr_key = write_hdr_with_key(3, 5);
    let entries = vec![vec![9u8], vec![8u8, 7]];
    let out = message_decode(&vec![1u8], &hdr_key, &ResyncMsg::new(&entries));
    assert_eq!(out, entries);
}

#[test]
fn split_and_frame() {
    let encoded = b"a test msg".to_vec();
    let frame = frame_message(0x42, &encoded);
    assert_eq!(frame.len(), HDRKEYL + encoded.len());
    let (hk, m) = split_frame(&frame);
    assert_eq!(hk, write_hdr_with_key(encoded.len(), 0x42));
    assert_eq!(m, encoded);
}

fn std_hash(items: &[&str]) -> u64 {
    let mut h = SipHasher::new();
    for s in items {
        s.to_string().hash(&mut h);
    }
    h.finish()
}

#[test]
fn do_hash_matches_std_string_hashing() {
    let keys = vec!["key".to_string(), "User".to_string(), "Channel".to_string()];
    assert_eq!(do_hash(&keys), std_hash(&["key", "User", "Channel"]));
    assert_eq!(do_hash(&Vec::<String>::new()), SipHasher::new().finish());
}

#[test]
fn process_key_accepts_matching_key() {
    let msg = Msg::new("User".to_string(), "Channel".to_string(), Vec::new());
    let key = std_hash(&["secret", "User", "Channel"]);
    let hk = write_hdr_with_key(10, key);
    assert_eq!(process_key(&hk, vec!["secret".to_string()], &msg), Ok(()));
    let bad = write_hdr_with_key(10, key ^ 1);
    assert_eq!(
        process_key(&bad, vec!["secret".to_string()], &msg),
        Err(FrameError::IncorrectRemoteKey)
    );
}

#[test]
fn client_keys() {
    let s = |x: &str| x.to_string();
    assert_eq!(client_key(&s("k"), &s("addr"), &s("ka"), &s("u"), &s("c")), std_hash(&["k", "u", "c"]));
    assert_eq!(client_key(&s(""), &s("addr"), &s("ka"), &s("u"), &s("c")), std_hash(&["addr", "ka", "u", "c"]));
    assert_eq!(client_key(&s(""), &s("addr"), &s(""), &s("u"), &s("c")), std_hash(&["addr", "u", "c"]));
}

#[test]
fn client_codec_roundtrip() {
    let frame = frame_message(7, &b"hello".to_vec());
    let mut buf: Vec<u8> = Vec::new();
    msg_encode(frame[..10].to_vec(), &mut buf);
    assert_eq!(msg_decode(&mut buf), None);
    assert_eq!(buf.len(), 10);
    msg_encode(frame[10..].to_vec(), &mut buf);
    msg_encode(vec![0xaa], &mut buf);
    assert_eq!(msg_decode(&mut buf), Some(b"hello".to_vec()));
    assert_eq!(buf, vec![0xaa]);
    assert_eq!(read_key_from_hdr(&frame), 7);
}

#[test]
fn client_codec_zero_length_clears() {
    let mut buf = write_hdr_with_key(0, 1);
    buf.push(1);
    assert_eq!(msg_decode(&mut buf), None);
    assert!(buf.is_empty());
}

#[test]
fn frame_roundtrip_through_header_check_and_codec() {
    for len in [1usize, 100, 4095, 4096, 70000] {
        let encoded = vec![7u8; len];
        let frame = frame_message(11, &encoded);
        assert_eq!(process_hdr(&frame), Ok(len));
        let mut buf = frame.clone();
        buf.extend_from_slice(b"rest");
        assert_eq!(msg_decode(&mut buf), Some(encoded));
        assert_eq!(buf, b"rest".to_vec());
    }
}

#[test]
fn frame_of_4096_bytes_reads_back_whole() {
    let frame = frame_message(11, &vec![1u8; 4096]);
    assert_eq!(process_hdr(&frame), Ok(4096));
}

#[test]
fn key_base_picks_server_key_or_address() {
    let s = |x: &str| x.to_string();
    assert_eq!(key_base(&s("k"), &s("1.2.3.4:5"), &s("ka")), vec![s("k")]);
    assert_eq!(key_base(&s(""), &s("1.2.3.4:5"), &s("ka")), vec![s("1.2.3.4:5"), s("ka")]);
    assert_eq!(key_base(&s(""), &s("1.2.3.4:5"), &s("")), vec![s("1.2.3.4:5")]);
}
