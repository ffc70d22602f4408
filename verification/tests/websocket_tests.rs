use mles::websocket::{
    add_message, check_init_frame, check_init_header, hash_user, missed_too_many_pongs,
    note_pending, on_client_message, ClientAction, EventHub, InitReject, JoinOutcome, MlesHeader,
    MsgKind, RateLimiter, WebSocketConfig, WsMessage, MAX_MESSAGE_SIZE,
    MESSAGE_HISTORY_MAX_BYTES,
};
use siphasher::sip::SipHasher;
use std::collections::VecDeque;
use std::hash::{Hash, Hasher};

fn text(s: &str) -> WsMessage {
    WsMessage { kind: MsgKind::Text, data: s.as_bytes().to_vec() }
}

#[test]
fn add_message_basic_and_eviction() {
    let mut queue: VecDeque<WsMessage> = VecDeque::new();
    let mut bytes = 0usize;
    let msg1 = text("hello");
    let msg2 = text("world!!!");

    assert!(add_message(msg1.copy(), 1, &mut queue, &mut bytes));
    assert_eq!(queue.len(), 1);
    assert_eq!(bytes, msg1.data.len());

    assert!(add_message(msg2.copy(), 1, &mut queue, &mut bytes));
    assert_eq!(queue.len(), 1);
    assert_eq!(bytes, msg2.data.len());

    let front = queue.pop_front().unwrap();
    assert_eq!(front.data, msg2.data);
}

#[test]
fn add_message_byte_limit_evicts_oldest() {
    let mut queue: VecDeque<WsMessage> = VecDeque::new();
    let mut bytes = 0usize;
    let big = WsMessage { kind: MsgKind::Binary, data: vec![0u8; MAX_MESSAGE_SIZE] };
    for _ in 0..10 {
        add_message(big.copy(), 100, &mut queue, &mut bytes);
    }
    assert_eq!(queue.len(), 10);
    assert_eq!(bytes, MESSAGE_HISTORY_MAX_BYTES);
    add_message(text("x"), 100, &mut queue, &mut bytes);
    assert_eq!(queue.len(), 10);
    assert_eq!(bytes, 9 * MAX_MESSAGE_SIZE + 1);
    assert_eq!(queue.back().unwrap().data, b"x".to_vec());
}

#[test]
fn rate_limiter_allows_then_blocks_then_allows_after_window() {
    let mut rl = RateLimiter::new(2, 1);
    let t0: u128 = 5_000_000_000;
    assert!(rl.check_and_add(t0));
    assert!(rl.check_and_add(t0));
    assert!(!rl.check_and_add(t0));
    assert!(rl.check_and_add(t0 + 1_100_000_000));
}

#[test]
fn rate_limiter_slides_over_accepted_messages_only() {
    let mut rl = RateLimiter::new(2, 1);
    assert!(rl.check_and_add(0));
    assert!(rl.check_and_add(500_000_000));
    // refused calls are not recorded
    assert!(!rl.check_and_add(900_000_000));
    // the first message has left the window, the second has not
    assert!(rl.check_and_add(1_200_000_000));
    assert!(!rl.check_and_add(1_300_000_000));
    // both of 0.5 s and 1.2 s are within the window of 1.5 s
    assert!(!rl.check_and_add(1_500_000_000));
    // at 1.6 s the message of 0.5 s has left it
    assert!(rl.check_and_add(1_600_000_000));
}

#[test]
fn rate_limiter_window_edge_is_inclusive() {
    let mut rl = RateLimiter::new(1, 1);
    assert!(rl.check_and_add(0));
    // exactly one window later the old message still counts
    assert!(!rl.check_and_add(1_000_000_000));
    assert!(rl.check_and_add(1_000_000_001));
}

#[test]
fn websocket_config_defaults() {
    let c = WebSocketConfig::default();
    assert_eq!(c.ping_interval_ms, 24000);
    assert_eq!(c.max_missed_pongs, 3);
    assert_eq!(c.rate_limit_messages_per_sec, 100);
    assert_eq!(c.rate_limit_window_secs, 1);
}

#[test]
fn init_frame_checks() {
    assert_eq!(check_init_frame(MsgKind::Binary, 1), Err(InitReject::NotText));
    assert_eq!(check_init_frame(MsgKind::Text, MAX_MESSAGE_SIZE + 1), Err(InitReject::TooLarge));
    assert_eq!(check_init_frame(MsgKind::Text, MAX_MESSAGE_SIZE), Ok(()));
}

#[derive(Hash)]
struct DerivedHeader {
    uid: String,
    channel: String,
    auth: Option<String>,
}

fn derived_id(uid: &str, channel: &str, auth: Option<&str>) -> u64 {
    let h = DerivedHeader {
        uid: uid.to_string(),
        channel: channel.to_string(),
        auth: auth.map(|a| a.to_string()),
    };
    let mut hasher = SipHasher::new();
    h.hash(&mut hasher);
    hasher.finish()
}

#[test]
fn user_id_matches_derived_hash() {
    assert_eq!(hash_user("alice", "example", None), derived_id("alice", "example", None));
    assert_eq!(
        hash_user("alice", "example", Some("abc")),
        derived_id("alice", "example", Some("abc"))
    );
    assert_ne!(hash_user("alice", "example", None), hash_user("alice", "example", Some("")));
}

#[test]
fn init_header_checks() {
    assert_eq!(check_init_header("ä", "c", None, None), Err(InitReject::NotAscii));
    assert_eq!(check_init_header("", "c", None, None), Err(InitReject::Empty));
    assert_eq!(check_init_header("u", "", None, None), Err(InitReject::Empty));
    assert_eq!(check_init_header("u", "c", None, Some("k")), Err(InitReject::AuthFailed));
    let ch = SipHasher::new().hash(b"c");
    assert_eq!(check_init_header("u", "c", None, None), Ok((derived_id("u", "c", None), ch)));
}

#[test]
fn mles_header_check() {
    let h = MlesHeader { uid: "alice".to_string(), channel: "example".to_string(), auth: None };
    let ch = SipHasher::new().hash(b"example");
    assert_eq!(h.check(None), Ok((derived_id("alice", "example", None), ch)));
}

#[test]
fn client_message_decisions() {
    let mut rl = RateLimiter::new(1, 1);
    assert_eq!(on_client_message(true, 1, MsgKind::Text, 1, &mut rl, 0), ClientAction::Stop);
    assert_eq!(on_client_message(false, 0, MsgKind::Text, 1, &mut rl, 0), ClientAction::StopInvalid);
    assert_eq!(on_client_message(false, 1, MsgKind::Close, 1, &mut rl, 0), ClientAction::Closed);
    assert_eq!(on_client_message(false, 1, MsgKind::Pong, 1, &mut rl, 0), ClientAction::Pong);
    assert_eq!(
        on_client_message(false, 1, MsgKind::Text, MAX_MESSAGE_SIZE + 1, &mut rl, 0),
        ClientAction::DropTooLarge
    );
    assert_eq!(on_client_message(false, 1, MsgKind::Text, 1, &mut rl, 0), ClientAction::Forward);
    assert_eq!(
        on_client_message(false, 1, MsgKind::Text, 1, &mut rl, 0),
        ClientAction::DropRateLimited
    );
}

#[test]
fn pong_and_pending_counters() {
    assert!(!missed_too_many_pongs(2, 3));
    assert!(missed_too_many_pongs(3, 3));
    assert_eq!(note_pending(0, 0), (1, 0, false));
    assert_eq!(note_pending(118, 0), (119, 1, true));
    assert_eq!(note_pending(118, 1), (119, 2, false));
    assert_eq!(note_pending(118, 10), (119, 11, true));
}

fn joined(o: JoinOutcome) -> Vec<Vec<u8>> {
    match o {
        JoinOutcome::Joined(h) => h.into_iter().map(|m| m.data).collect(),
        JoinOutcome::Duplicate => panic!("expected a join"),
    }
}

#[test]
fn hub_join_replays_history() {
    let mut hub = EventHub::new(10);
    assert!(joined(hub.join(1, 100, text("hello"), 0)).is_empty());
    let hist = joined(hub.join(2, 100, text("hi"), 1));
    assert_eq!(hist, vec![b"hello".to_vec()]);
    let recipients = hub.send(2, 100, text("msg"), 2).unwrap();
    assert_eq!(recipients, vec![1]);
    let hist = joined(hub.join(3, 100, text("hey"), 3));
    assert_eq!(hist, vec![b"hello".to_vec(), b"hi".to_vec(), b"msg".to_vec()]);
    assert_eq!(hub.channel_count(), 1);
    assert_eq!(hub.history_count(), 1);
}

#[test]
fn hub_duplicate_join_refused() {
    let mut hub = EventHub::new(10);
    joined(hub.join(1, 100, text("a"), 0));
    assert!(matches!(hub.join(1, 100, text("b"), 1), JoinOutcome::Duplicate));
    let hist = joined(hub.join(2, 100, text("c"), 2));
    assert_eq!(hist, vec![b"a".to_vec()]);
}

#[test]
fn hub_send_excludes_sender_and_other_channels() {
    let mut hub = EventHub::new(10);
    joined(hub.join(1, 100, text("a"), 0));
    joined(hub.join(2, 100, text("b"), 0));
    joined(hub.join(3, 200, text("c"), 0));
    let mut r = hub.send(1, 100, text("x"), 1).unwrap();
    r.sort();
    assert_eq!(r, vec![2]);
    assert_eq!(hub.send(1, 300, text("x"), 1), None);
    let hist = joined(hub.join(4, 200, text("d"), 2));
    assert_eq!(hist, vec![b"c".to_vec()]);
}

#[test]
fn hub_leave_forgets_empty_channel_keeps_history() {
    let mut hub = EventHub::new(10);
    joined(hub.join(1, 100, text("a"), 0));
    hub.leave(1, 100);
    assert_eq!(hub.channel_count(), 0);
    assert_eq!(hub.history_count(), 1);
    assert_eq!(hub.send(1, 100, text("x"), 1), None);
    let hist = joined(hub.join(2, 100, text("b"), 2));
    assert_eq!(hist, vec![b"a".to_vec()]);
}

#[test]
fn hub_history_limit() {
    let mut hub = EventHub::new(2);
    joined(hub.join(1, 100, text("a"), 0));
    hub.send(1, 100, text("b"), 0);
    hub.send(1, 100, text("c"), 0);
    let hist = joined(hub.join(2, 100, text("d"), 0));
    assert_eq!(hist, vec![b"b".to_vec(), b"c".to_vec()]);
}

#[test]
fn hub_cleanup_drops_stale_histories() {
    let day: u128 = 86_400 * 1_000_000_000;
    let mut hub = EventHub::new(10);
    joined(hub.join(1, 100, text("a"), 0));
    joined(hub.join(1, 200, text("b"), 20 * day));
    assert_eq!(hub.cleanup(30 * day), 2);
    assert_eq!(hub.cleanup(30 * day + 1), 1);
    let hist = joined(hub.join(2, 100, text("c"), 31 * day));
    assert!(hist.is_empty());
    let hist = joined(hub.join(2, 200, text("c"), 31 * day));
    assert_eq!(hist, vec![b"b".to_vec()]);
}
