use mles::legacy;
use mles::local_db::{add_to_history, MlesDb, MlesPeerDb};

const HISTLIMIT: usize = 100;

#[test]
fn local_db_test_new_db() {
    let msg = "Message".to_string().into_bytes();
    let mut mles_db: MlesDb<u32, u32> = MlesDb::new(HISTLIMIT);
    mles_db.add_message(msg);
    assert_eq!(1, mles_db.get_messages().len());
    assert_eq!(0, mles_db.get_channels_len());
    let channel = mles_db.get_channels();
    assert_eq!(true, channel.is_none());
}

#[test]
fn local_db_test_new_peer_db() {
    let msg = "Message".to_string().into_bytes();
    let mut mles_peer: MlesPeerDb<u32> = MlesPeerDb::new(HISTLIMIT);
    assert_eq!(0, mles_peer.get_messages_len());
    mles_peer.add_message(msg);
    assert_eq!(1, mles_peer.get_messages_len());
}

#[test]
fn local_db_test_db_history_limit() {
    let mut limit = HISTLIMIT;
    let msg = "Message".to_string().into_bytes();
    let mut mles_peer: MlesPeerDb<u32> = MlesPeerDb::new(limit);
    assert_eq!(0, mles_peer.get_messages_len());
    mles_peer.add_message(msg.clone());
    assert_eq!(1, mles_peer.get_messages_len());
    while limit > 0 {
        mles_peer.add_message(msg.clone());
        limit -= 1;
    }
    assert_eq!(HISTLIMIT, mles_peer.get_messages_len());
    assert_eq!(HISTLIMIT, mles_peer.get_history_limit());
}

#[test]
fn history_keeps_newest() {
    let mut h: Vec<u8> = Vec::new();
    for i in 0..5u8 {
        add_to_history(&mut h, 3, i);
    }
    assert_eq!(h, vec![2, 3, 4]);
}

#[test]
fn history_limit_zero_keeps_nothing() {
    let mut db: MlesDb<u32, u32> = MlesDb::new(0);
    db.add_message(vec![1]);
    assert_eq!(0, db.get_messages_len());
}

#[test]
fn db_channels_add_remove() {
    let mut db: MlesDb<u32, u32> = MlesDb::new(10);
    db.add_channel(5, 11);
    db.add_channel(0x1_0000_0006, 12);
    assert!(db.get_channels().is_some());
    assert_eq!(2, db.get_channels_len());
    assert!(db.check_for_duplicate_cid(5));
    // only the whole 64-bit key counts: 6 is not 0x1_0000_0006
    assert!(!db.check_for_duplicate_cid(6));
    db.rem_channel(5);
    assert_eq!(1, db.get_channels_len());
}

#[test]
fn db_peer_tx() {
    let mut db: MlesDb<u32, u32> = MlesDb::new(10);
    assert!(!db.check_peer());
    db.set_peer_tx(3);
    assert!(db.check_peer());
    assert_eq!(db.get_peer_tx(), Some(&3));
    db.rem_peer_tx();
    assert!(!db.check_peer());
}

#[test]
fn db_tx_db() {
    let mut db: MlesDb<u32, u32> = MlesDb::new(10);
    db.add_tx_db(1);
    db.add_tx_db(2);
    assert_eq!(db.get_tx_db(), &vec![1, 2]);
    db.clear_tx_db();
    assert!(db.get_tx_db().is_empty());
}

#[test]
fn peer_db_stats_and_channels() {
    let mut p: MlesPeerDb<u32> = MlesPeerDb::new(5);
    p.add_rx_stats();
    p.add_rx_stats();
    p.add_tx_stats();
    assert_eq!(p.get_rx_stats(), 2);
    p.clear_stats();
    assert_eq!(p.get_rx_stats(), 0);
    p.add_channel(1, 10);
    p.add_channel(2, 20);
    assert_eq!(p.get_channels().len(), 2);
    p.rem_channel(1);
    assert_eq!(p.get_channels().len(), 1);
    p.clear_channels();
    assert!(p.get_channels().is_empty());
}

#[test]
fn legacy_test_new_db() {
    let msg = "Message".to_string().into_bytes();
    let mut mles_db: legacy::MlesDb<u32, u32> = legacy::MlesDb::new(HISTLIMIT);
    mles_db.add_message(msg);
    assert_eq!(1, mles_db.get_messages().len());
    assert_eq!(0, mles_db.get_channels_len());
    assert_eq!(true, mles_db.get_channels().is_none());
}

#[test]
fn legacy_test_db_history_limit() {
    let mut limit = HISTLIMIT;
    let msg = "Message".to_string().into_bytes();
    let mut mles_peer: legacy::MlesPeerDb<u32> = legacy::MlesPeerDb::new(limit);
    assert_eq!(0, mles_peer.get_messages_len());
    mles_peer.add_message(msg.clone());
    assert_eq!(1, mles_peer.get_messages_len());
    while limit > 0 {
        mles_peer.add_message(msg.clone());
        limit -= 1;
    }
    assert_eq!(HISTLIMIT, mles_peer.get_messages_len());
    assert_eq!(HISTLIMIT, mles_peer.get_history_limit());
}

#[test]
fn test_join_channel() {
    let socket = 7u32;
    let mut channel_db: legacy::ChannelDb<u32> = legacy::ChannelDb::new("Rust".to_string());
    let user = "Sampo";
    let mut ret;
    ret = channel_db.check_user_existence(user);
    assert_eq!(false, ret);
    channel_db = channel_db.join_channel(socket, user);
    ret = channel_db.check_user_existence(user);
    assert_eq!(true, ret);
    channel_db = channel_db.join_channel(socket, user);
    ret = channel_db.check_user_existence(user);
    assert_eq!(true, ret);
    assert_eq!(channel_db.channelname(), "Rust");
}

#[test]
fn test_leave_channel() {
    let socket = 7u32;
    let mut channel_db: legacy::ChannelDb<u32> = legacy::ChannelDb::new("Mles".to_string());
    let user = "Anna";
    let mut ret;
    channel_db = channel_db.join_channel(socket, user);
    ret = channel_db.check_user_existence(user);
    assert_eq!(true, ret);
    channel_db = channel_db.leave_channel(user);
    ret = channel_db.check_user_existence(user);
    assert_eq!(false, ret);
    channel_db = channel_db.leave_channel(user);
    ret = channel_db.check_user_existence(user);
    assert_eq!(false, ret);
}

#[test]
fn legacy_channel_db_keeps_other_users() {
    let mut db: legacy::ChannelDb<u32> = legacy::ChannelDb::new("c".to_string());
    db = db.join_channel(1, "a");
    db = db.join_channel(2, "b");
    db = db.leave_channel("a");
    assert!(!db.check_user_existence("a"));
    assert!(db.check_user_existence("b"));
    assert!(db.values().is_empty());
}

#[test]
fn legacy_msg_holds_strings() {
    let m = legacy::Msg { message: vec!["Message inside to vectors".to_string()] };
    assert_eq!(m.message[0], "Message inside to vectors");
}
