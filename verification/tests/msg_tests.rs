use mles::msg::{Msg, MsgVec, ResyncMsg};

#[test]
fn test_set_get_msg() {
    let uid = "User".to_string();
    let channel = "Channel".to_string();
    let msg = "a test msg".to_string().into_bytes();
    let orig_msg = Msg::new("".to_string(), channel.to_string(), Vec::new());
    let orig_msg = orig_msg.set_uid(uid.clone());
    let orig_msg = orig_msg.set_channel(channel.clone());
    let orig_msg = orig_msg.set_message(msg.clone());
    assert_eq!(&uid, orig_msg.get_uid());
    assert_eq!(&channel, orig_msg.get_channel());
    assert_eq!(&msg, orig_msg.get_message());
}

#[test]
fn msg_message_len() {
    let msg = Msg::new("u".to_string(), "c".to_string(), vec![1, 2, 3, 4]);
    assert_eq!(msg.get_message_len(), 4);
}

#[test]
fn msgvec_keeps_its_bytes() {
    let bytes = vec![9u8, 8, 7];
    let mv = MsgVec::new(&bytes);
    assert_eq!(mv.get(), &bytes);
}

#[test]
fn resync_new_len_and_messages() {
    let vec = vec![vec![1u8, 2], vec![], vec![3u8]];
    let rmsg = ResyncMsg::new(&vec);
    assert_eq!(3, rmsg.len());
    let rvec = rmsg.get_messages();
    assert_eq!(vec, rvec);
}

#[test]
fn resync_empty() {
    let rmsg = ResyncMsg::new(&Vec::new());
    assert_eq!(0, rmsg.len());
    assert!(rmsg.get_messages().is_empty());
}
