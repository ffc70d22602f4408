use mles::legacy::inc_peer_cnt;
use mles::msg::Msg;
use mles::peer::{
    clear_peer_cid, has_peer, peer_first_frame, peer_gives_up, retry_wait, set_peer_cid, update_key,
    MAXWAIT,
};
use mles::frame::client_key;
use mles::hdr::{read_cid_from_hdr, read_hdr_len, read_key_from_hdr, write_hdr_with_key, MSGMAXSIZE};

#[test]
fn test_peer_set_cid() {
    let val: u32 = 1;
    assert_eq!(0x0000000100000001, set_peer_cid(val));
}

#[test]
fn peer_test_has_peer() {
    assert_eq!(false, has_peer(&Some(0)));
}

#[test]
fn has_peer_cases() {
    assert!(has_peer(&Some(8077)));
    assert!(!has_peer(&None));
}

#[test]
fn test_peer_inc_cnt() {
    let val: u64 = 1 << 32;
    assert_eq!(2 << 32, inc_peer_cnt(val));
}

#[test]
fn inc_peer_cnt_clears_low_bits_and_wraps() {
    assert_eq!(inc_peer_cnt(0x0000_0005_dead_beef), 6 << 32);
    assert_eq!(inc_peer_cnt(0xffff_ffff_0000_0001), 0);
}

#[test]
fn clear_then_set_peer_cid() {
    assert_eq!(clear_peer_cid(set_peer_cid(0xabcd)), 0xabcd);
    assert_eq!(clear_peer_cid(0x0000_0001_0000_0007), 7);
}

#[test]
fn update_key_uses_address_identity() {
    let msg = Msg::new("User".to_string(), "Channel".to_string(), Vec::new());
    let hdr = update_key(&msg, 10, "".to_string(), "127.0.0.1:8077".to_string());
    let expect = client_key(
        &"".to_string(),
        &"127.0.0.1:8077".to_string(),
        &"".to_string(),
        &"User".to_string(),
        &"Channel".to_string(),
    );
    assert_eq!(read_key_from_hdr(&hdr), expect);
    assert_eq!(read_cid_from_hdr(&hdr), expect as u32);
    assert_eq!(read_hdr_len(&hdr), 10);
}

#[test]
fn retry_waits() {
    assert_eq!(retry_wait(1), (5, false, 2));
    assert_eq!(retry_wait(64), (320, false, 128));
    assert_eq!(retry_wait(128), (MAXWAIT, true, 256));
}

#[test]
fn peer_gives_up_cases() {
    assert!(peer_gives_up(true, 0));
    assert!(!peer_gives_up(true, 1));
    assert!(!peer_gives_up(false, 0));
}

#[test]
fn peer_first_frames() {
    let hdr = write_hdr_with_key(3, 1);
    let message = vec![1u8, 2, 3];
    let resync = vec![9u8; 5];
    let (f, push) = peer_first_frame(hdr.clone(), &message, 1, &resync);
    assert!(push);
    assert_eq!(f, [hdr.clone(), message.clone()].concat());
    let (f, push) = peer_first_frame(hdr.clone(), &message, 2, &resync);
    assert!(!push);
    assert_eq!(read_hdr_len(&f), 5);
    assert_eq!(&f[16..], &resync[..]);
    let big = vec![0u8; MSGMAXSIZE + 1];
    let (f, push) = peer_first_frame(hdr.clone(), &message, 2, &big);
    assert!(!push);
    assert_eq!(f, [hdr, message].concat());
}
