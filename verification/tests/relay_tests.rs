use mles::relay::Relay;

fn sorted(mut v: Vec<(u64, u64)>) -> Vec<(u64, u64)> {
    v.sort();
    v
}

#[test]
fn relay_join_forward_and_replay() {
    let mut r = Relay::new(10, false);
    let a = r.join(1, "chan", 0x11, &vec![b"hello".to_vec()], 100).unwrap();
    assert!(!a.spawn_peer);
    assert_eq!(a.to_peer, None);
    assert!(a.replay.is_empty());
    assert!(a.targets.is_empty());

    let b = r.join(2, "chan", 0x22, &vec![b"hi".to_vec()], 200).unwrap();
    assert_eq!(b.replay, vec![b"hello".to_vec()]);
    assert_eq!(sorted(b.targets), vec![(0x11, 100)]);

    let (spawn, t) = r.message("chan", 0x11, b"msg".to_vec()).unwrap();
    assert!(!spawn);
    assert_eq!(sorted(t), vec![(0x22, 200)]);

    let c = r.join(3, "chan", 0x33, &vec![b"hey".to_vec()], 300).unwrap();
    assert_eq!(c.replay, vec![b"hello".to_vec(), b"hi".to_vec(), b"msg".to_vec()]);
    assert_eq!(sorted(c.targets), vec![(0x11, 100), (0x22, 200)]);
}

#[test]
fn relay_duplicate_id_refused() {
    let mut r = Relay::new(10, false);
    r.join(1, "chan", 0x11, &vec![b"a".to_vec()], 100).unwrap();
    assert!(r.join(2, "chan", 0x11, &vec![b"b".to_vec()], 200).is_none());
    // another channel may use the same id
    assert!(r.join(3, "other", 0x11, &vec![b"c".to_vec()], 300).is_some());
}

#[test]
fn relay_resync_fills_empty_history() {
    let mut r = Relay::new(2, false);
    r.join(1, "chan", 0x11, &vec![b"a".to_vec(), b"b".to_vec(), b"c".to_vec()], 100).unwrap();
    let j = r.join(2, "chan", 0x22, &vec![b"x".to_vec()], 200).unwrap();
    assert_eq!(j.replay, vec![b"b".to_vec(), b"c".to_vec()]);
}

#[test]
fn relay_unknown_channel_message() {
    let mut r = Relay::new(2, false);
    assert!(r.message("nope", 1, b"x".to_vec()).is_none());
}

#[test]
fn relay_with_peer_spawns_and_hands_over() {
    let mut r = Relay::new(10, true);
    let a = r.join(1, "chan", 0x11, &vec![b"a".to_vec()], 100).unwrap();
    assert!(a.spawn_peer);
    let b = r.join(2, "chan", 0x22, &vec![b"b".to_vec()], 200).unwrap();
    assert!(b.spawn_peer);
    assert!(b.replay.is_empty());
    let txs = r.peer_up("chan", 0x1_0000_0011, 900, 901);
    assert_eq!(txs, vec![100, 200]);
    let c = r.join(3, "chan", 0x33, &vec![b"c".to_vec()], 300).unwrap();
    assert!(!c.spawn_peer);
    assert_eq!(c.to_peer, Some(901));
    assert!(sorted(c.targets).contains(&(0x1_0000_0011, 900)));
    let (spawn, _) = r.message("chan", 0x33, b"m".to_vec()).unwrap();
    assert!(!spawn);
    r.peer_down("chan", 0x1_0000_0011);
    let (spawn, t) = r.message("chan", 0x33, b"m".to_vec()).unwrap();
    assert!(spawn);
    // the peer's id and its plain id (0x11) are gone
    assert_eq!(sorted(t), vec![(0x22, 200)]);
}

#[test]
fn relay_close_and_drop() {
    let mut r = Relay::new(10, false);
    r.join(1, "chan", 0x11, &vec![b"a".to_vec()], 100).unwrap();
    r.join(2, "chan", 0x22, &vec![b"b".to_vec()], 200).unwrap();
    r.drop_conn(0x22, "chan");
    let (_, t) = r.message("chan", 0x11, b"m".to_vec()).unwrap();
    assert!(t.is_empty());
    r.closed(1);
    // the id may join again, and the history stays
    let j = r.join(3, "chan", 0x11, &vec![b"c".to_vec()], 300).unwrap();
    assert_eq!(j.replay, vec![b"a".to_vec(), b"b".to_vec(), b"m".to_vec()]);
}

#[test]
fn relay_channel_without_history_is_dropped_when_empty() {
    let mut r = Relay::new(0, false);
    r.join(1, "chan", 0x11, &vec![b"a".to_vec()], 100).unwrap();
    r.closed(1);
    assert!(r.message("chan", 0x11, b"m".to_vec()).is_none());
}
