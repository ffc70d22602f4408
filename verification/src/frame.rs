//! Framing of Mles messages on a TCP stream: checking headers, building
//! frames, splitting resynchronizations and verifying the remote key.
use crate::hdr::{
    from_be32, lemma_decode_encode, lemma_read_hdr_len_bound, lemma_write_read_hdr_with_key, read_hdr_len,
    read_hdr_type, read_key_from_hdr, spec_read_hdr_len, spec_read_hdr_type,
    spec_read_key, spec_write_hdr_with_key, write_hdr_with_key, MsgHdr, HDRKEYL, MSGMAXSIZE, MSG_TYPE,
};
use crate::msg::{copy_bytes, Msg, ResyncMsg};
use crate::sip::{do_hash, spec_do_hash};
use vstd::prelude::*;

verus! {

/// Why a frame was refused. Each stands for a broken pipe.
#[derive(Debug, PartialEq, Eq, Structural, Clone, Copy)]
pub enum FrameError {
    /// The header was empty.
    BrokenPipe,
    /// The header does not start with the type `'M'`.
    IncorrectHeader,
    /// The header gives length 0.
    IncorrectHeaderLen,
    /// The message after the header is empty.
    IncorrectMessageLen,
    /// No message could be taken from the frame.
    IncorrectMsg,
    /// The key in the header is not the hash of the sender's identity.
    IncorrectRemoteKey,
}

/// What `process_hdr` answers for the header bytes `hdr`.
pub open spec fn spec_process_hdr(hdr: Seq<u8>) -> Result<usize, FrameError> {
    if hdr.len() == 0 {
        Err(FrameError::BrokenPipe)
    } else if spec_read_hdr_type(hdr) != MSG_TYPE {
        Err(FrameError::IncorrectHeader)
    } else if spec_read_hdr_len(hdr) == 0 {
        Err(FrameError::IncorrectHeaderLen)
    } else {
        Ok(spec_read_hdr_len(hdr))
    }
}

/// Checks a received header and gives the length of the message that follows.
pub fn process_hdr(hdr: &[u8]) -> (r: Result<usize, FrameError>)
    ensures
        r == spec_process_hdr(hdr@),
{
    if hdr.len() == 0 {
        return Err(FrameError::BrokenPipe);
    }
    if read_hdr_type(hdr) != MSG_TYPE {
        return Err(FrameError::IncorrectHeader);
    }
    let hdr_len = read_hdr_len(hdr);
    if hdr_len == 0 {
        return Err(FrameError::IncorrectHeaderLen);
    }
    Ok(hdr_len)
}

/// Checks that a received message is not empty.
pub fn process_msg(message: &[u8]) -> (r: Result<(), FrameError>)
    ensures
        r == (if message@.len() == 0 {
            Err(FrameError::IncorrectMessageLen)
        } else {
            Ok(())
        }),
{
    if message.len() == 0 {
        return Err(FrameError::IncorrectMessageLen);
    }
    Ok(())
}

/// Concatenates two byte vectors.
pub fn concat_bytes(a: &Vec<u8>, b: &Vec<u8>) -> (r: Vec<u8>)
    ensures
        r@ == a@ + b@,
{
    let mut r = copy_bytes(a);
    let n = b.len();
    let ghost start = r@;
    for i in 0..n
        invariant
            n == b@.len(),
            r@ == start + b@.subrange(0, i as int),
    {
        r.push(b[i]);
        assert(r@ =~= start + b@.subrange(0, i + 1));
    }
    assert(b@.subrange(0, n as int) =~= b@);
    r
}

/// The messages that a received frame carries: when the message decodes as
/// a resynchronization with at least one entry, its entries; otherwise the
/// frame itself, header and key followed by the message.
pub open spec fn spec_message_decode(resync: Seq<Seq<u8>>, hdr_key: Seq<u8>, message: Seq<u8>) -> Seq<
    Seq<u8>,
> {
    if resync.len() != 0 {
        resync
    } else {
        seq![hdr_key + message]
    }
}

/// Splits a received frame into the messages it carries. `resync` is what
/// decoding `message` as a resynchronization gave (empty when it is none).
pub fn message_decode(message: &Vec<u8>, hdr_key: &Vec<u8>, resync: &ResyncMsg) -> (r: Vec<Vec<u8>>)
    ensures
        r@.map_values(|m: Vec<u8>| m@) == spec_message_decode(resync@, hdr_key@, message@),
        r@.len() >= 1,
{
    if resync.len() != 0 {
        resync.get_messages()
    } else {
        let mut msgs: Vec<Vec<u8>> = Vec::new();
        msgs.push(concat_bytes(hdr_key, message));
        assert(msgs@.map_values(|m: Vec<u8>| m@) =~= seq![hdr_key@ + message@]);
        msgs
    }
}

/// Splits a frame into its header with key and the encoded message after it.
pub fn split_frame(frame: &Vec<u8>) -> (r: (Vec<u8>, Vec<u8>))
    requires
        frame@.len() >= HDRKEYL,
    ensures
        r.0@ == frame@.subrange(0, HDRKEYL as int),
        r.1@ == frame@.subrange(HDRKEYL as int, frame@.len() as int),
{
    let mut hdrkey = copy_bytes(frame);
    let message = hdrkey.split_off(HDRKEYL);
    (hdrkey, message)
}

/// The hash that a sender's key must equal: the Mles hash of the server's
/// keys followed by the sender's uid and channel.
pub open spec fn spec_remote_key(keys: Seq<Seq<char>>, uid: Seq<char>, channel: Seq<char>) -> u64 {
    spec_do_hash(keys.push(uid).push(channel))
}

/// Verifies the key in the header of a first frame against the hash of the
/// server's keys and the sender's uid and channel, decoded from the frame.
pub fn process_key(hdrkey: &Vec<u8>, keys: Vec<String>, decoded_message: &Msg) -> (r: Result<
    (),
    FrameError,
>)
    ensures
        r == (if spec_remote_key(
            keys@.map_values(|s: String| s@),
            decoded_message@.uid,
            decoded_message@.channel,
        ) == spec_read_key(hdrkey@) {
            Ok(())
        } else {
            Err(FrameError::IncorrectRemoteKey)
        }),
{
    let key = read_key_from_hdr(hdrkey.as_slice());
    let mut keys = keys;
    let ghost k0 = keys@.map_values(|s: String| s@);
    keys.push(decoded_message.get_uid().clone());
    keys.push(decoded_message.get_channel().clone());
    assert(keys@.map_values(|s: String| s@) =~= k0.push(decoded_message@.uid).push(
        decoded_message@.channel,
    ));
    let hkey = do_hash(keys.as_slice());
    if hkey != key {
        return Err(FrameError::IncorrectRemoteKey);
    }
    Ok(())
}

/// The frame that carries the encoded message `encoded` under key `key`.
pub open spec fn spec_frame(key: u64, encoded: Seq<u8>) -> Seq<u8> {
    spec_write_hdr_with_key(encoded.len() as usize, key) + encoded
}

/// Builds the frame that carries the encoded message `encoded` under key
/// `key`: the header with its length and connection id, the key, the message.
pub fn frame_message(key: u64, encoded: &Vec<u8>) -> (r: Vec<u8>)
    ensures
        r@ == spec_frame(key, encoded@),
        0 < encoded@.len() <= MSGMAXSIZE ==> spec_process_hdr(r@) == Ok::<usize, FrameError>(
            encoded@.len() as usize,
        ),
        0 < encoded@.len() <= MSGMAXSIZE ==> forall|rest: Seq<u8>|
            #[trigger] spec_msg_decode(r@ + rest) == (Some(encoded@), rest),
{
    proof {
        if 0 < encoded@.len() <= MSGMAXSIZE {
            lemma_frame_roundtrip(key, encoded@, seq![]);
            assert(spec_frame(key, encoded@) + seq![] =~= spec_frame(key, encoded@));
            assert forall|rest: Seq<u8>| #[trigger] spec_msg_decode(spec_frame(key, encoded@) + rest)
                == (Some(encoded@), rest) by {
                lemma_frame_roundtrip(key, encoded@, rest);
            }
        }
    }
    let hdr = write_hdr_with_key(encoded.len(), key);
    concat_bytes(&hdr, encoded)
}

/// The identity strings that come before a connection's uid and channel in
/// its key: the server key when one is set, else the connection's address
/// and the address key when set.
pub open spec fn spec_key_base(keyval: Seq<char>, laddr: Seq<char>, keyaddr: Seq<char>) -> Seq<
    Seq<char>,
> {
    if keyval.len() != 0 {
        seq![keyval]
    } else if keyaddr.len() != 0 {
        seq![laddr, keyaddr]
    } else {
        seq![laddr]
    }
}

/// The identity strings whose hash keys a client connection: those of
/// `spec_key_base`, then the uid and the channel.
pub open spec fn spec_client_keys(
    keyval: Seq<char>,
    laddr: Seq<char>,
    keyaddr: Seq<char>,
    uid: Seq<char>,
    channel: Seq<char>,
) -> Seq<Seq<char>> {
    spec_key_base(keyval, laddr, keyaddr).push(uid).push(channel)
}

/// Builds the identity strings that come before a connection's uid and
/// channel in its key.
pub fn key_base(keyval: &String, laddr: &String, keyaddr: &String) -> (r: Vec<String>)
    ensures
        r@.map_values(|s: String| s@) == spec_key_base(keyval@, laddr@, keyaddr@),
{
    let mut keys: Vec<String> = Vec::new();
    if !keyval.as_str().is_empty() {
        keys.push(keyval.clone());
    } else {
        keys.push(laddr.clone());
        if !keyaddr.as_str().is_empty() {
            keys.push(keyaddr.clone());
        }
    }
    proof {
        assert(keys@.map_values(|s: String| s@) =~= spec_key_base(keyval@, laddr@, keyaddr@));
    }
    keys
}

/// Computes the key of a client connection from its identity strings.
pub fn client_key(keyval: &String, laddr: &String, keyaddr: &String, uid: &String, channel: &String) -> (r:
    u64)
    ensures
        r == spec_do_hash(spec_client_keys(keyval@, laddr@, keyaddr@, uid@, channel@)),
{
    let mut keys = key_base(keyval, laddr, keyaddr);
    let ghost k0 = keys@.map_values(|s: String| s@);
    keys.push(uid.clone());
    keys.push(channel.clone());
    proof {
        let k = spec_client_keys(keyval@, laddr@, keyaddr@, uid@, channel@);
        assert(keys@.map_values(|s: String| s@) =~= k0.push(uid@).push(channel@));
    }
    do_hash(keys.as_slice())
}

/// What the client codec takes from its buffer: `None` while no whole frame
/// is buffered, else the message of the first frame and the bytes after it.
/// A header of length 0 empties the buffer.
pub open spec fn spec_msg_decode(buf: Seq<u8>) -> (Option<Seq<u8>>, Seq<u8>) {
    if buf.len() < HDRKEYL {
        (None, buf)
    } else {
        let hdr_len = spec_read_hdr_len(buf) as int;
        if hdr_len == 0 {
            (None, seq![])
        } else if buf.len() < HDRKEYL + hdr_len {
            (None, buf)
        } else {
            (
                Some(buf.subrange(HDRKEYL as int, HDRKEYL + hdr_len)),
                buf.subrange(HDRKEYL + hdr_len, buf.len() as int),
            )
        }
    }
}

/// The client codec: takes the message of the first whole frame out of `buf`.
pub fn msg_decode(buf: &mut Vec<u8>) -> (r: Option<Vec<u8>>)
    ensures
        (match r {
            Some(m) => Some(m@),
            None => None,
        }) == spec_msg_decode(old(buf)@).0,
        final(buf)@ == spec_msg_decode(old(buf)@).1,
{
    if buf.len() >= MsgHdr::get_hdrkey_len() {
        let msghdr = MsgHdr::decode(copy_bytes(buf));
        if msghdr.get_type() != 77u8 {
            buf.clear();
            return None;
        }
        let hdr_len = msghdr.get_len() as usize;
        proof {
            lemma_read_hdr_len_bound(old(buf)@);
        }
        if hdr_len == 0 {
            buf.clear();
            return None;
        }
        let len = buf.len();
        if len < MsgHdr::get_hdrkey_len() + hdr_len {
            return None;
        }
        let rest = buf.split_off(MsgHdr::get_hdrkey_len());
        let mut msg = rest;
        let tail = msg.split_off(hdr_len);
        *buf = tail;
        return Some(msg);
    }
    None
}

/// The client codec: appends `data` to `buf`.
pub fn msg_encode(data: Vec<u8>, buf: &mut Vec<u8>)
    ensures
        final(buf)@ == old(buf)@ + data@,
{
    let mut data = data;
    buf.append(&mut data);
}

/// The header of `h` followed by a message `p` of the length it gives and
/// any bytes `rest` passes the header check with that length, and the client
/// codec takes exactly `p` out of it and leaves `rest`.
pub proof fn lemma_msg_decode_encoded(h: MsgHdr, p: Seq<u8>, rest: Seq<u8>)
    requires
        p.len() > 0,
        p.len() == h@.len,
    ensures
        spec_process_hdr(h.spec_encode() + p + rest) == Ok::<usize, FrameError>(p.len() as usize),
        spec_msg_decode(h.spec_encode() + p + rest) == (Some(p), rest),
{
    let hk = h.spec_encode();
    let buf = hk + p + rest;
    lemma_decode_encode(h);
    assert(buf =~= hk + (p + rest));
    assert(from_be32(buf, 0) == from_be32(hk, 0)) by {
        assert(buf[0] == hk[0]);
        assert(buf[1] == hk[1]);
        assert(buf[2] == hk[2]);
        assert(buf[3] == hk[3]);
    }
    let len = p.len() as usize;
    assert(spec_read_hdr_len(buf) == len);
    assert(spec_read_hdr_type(buf) == MSG_TYPE);
    assert(buf.subrange(HDRKEYL as int, HDRKEYL + len) =~= p);
    assert(buf.subrange(HDRKEYL + len, buf.len() as int) =~= rest);
}

/// What is framed is what is read back: a frame carrying `encoded` (of
/// 1 to `MSGMAXSIZE` bytes, the lengths a header can describe), followed
/// by any bytes `rest`, passes the header check with the length of
/// `encoded`, and the client codec takes exactly `encoded` out of it and
/// leaves `rest`.
pub proof fn lemma_frame_roundtrip(key: u64, encoded: Seq<u8>, rest: Seq<u8>)
    requires
        0 < encoded.len() <= MSGMAXSIZE,
    ensures
        spec_process_hdr(spec_frame(key, encoded) + rest) == Ok::<usize, FrameError>(encoded.len() as usize),
        spec_msg_decode(spec_frame(key, encoded) + rest) == (Some(encoded), rest),
{
    let len = encoded.len() as usize;
    let hk = spec_write_hdr_with_key(len, key);
    let buf = spec_frame(key, encoded) + rest;
    lemma_write_read_hdr_with_key(len, key);
    assert(buf =~= hk + encoded + rest);
    assert(from_be32(buf, 0) == from_be32(hk, 0)) by {
        assert(buf[0] == hk[0]);
        assert(buf[1] == hk[1]);
        assert(buf[2] == hk[2]);
        assert(buf[3] == hk[3]);
    }
    assert(spec_read_hdr_len(buf) == len);
    assert(spec_read_hdr_type(buf) == MSG_TYPE);
    assert(buf.subrange(HDRKEYL as int, HDRKEYL + len) =~= encoded);
    assert(buf.subrange(HDRKEYL + len, buf.len() as int) =~= rest);
}

/// A frame that arrives in two parts is not lost: for a frame carrying
/// `encoded` and any split of it after `k` bytes, where `k` covers at least
/// the header and key, decoding the first part gives nothing and leaves it
/// as it was, and decoding it with the rest of the frame and any bytes
/// `rest` appended gives the message and leaves `rest`.
pub proof fn lemma_msg_decode_split(key: u64, encoded: Seq<u8>, k: int, rest: Seq<u8>)
    requires
        0 < encoded.len() <= MSGMAXSIZE,
        HDRKEYL <= k < spec_frame(key, encoded).len(),
    ensures
        spec_msg_decode(spec_frame(key, encoded).subrange(0, k)) == (
            None::<Seq<u8>>,
            spec_frame(key, encoded).subrange(0, k),
        ),
        spec_process_hdr(spec_frame(key, encoded).subrange(0, k)) == Ok::<usize, FrameError>(
            encoded.len() as usize,
        ),
        spec_msg_decode(
            spec_frame(key, encoded).subrange(0, k) + spec_frame(key, encoded).subrange(
                k,
                spec_frame(key, encoded).len() as int,
            ) + rest,
        ) == (Some(encoded), rest),
{
    let f = spec_frame(key, encoded);
    let a = f.subrange(0, k);
    let len = encoded.len() as usize;
    lemma_frame_roundtrip(key, encoded, rest);
    lemma_frame_roundtrip(key, encoded, seq![]);
    lemma_write_read_hdr_with_key(len, key);
    let hk = spec_write_hdr_with_key(len, key);
    assert(f =~= hk + encoded);
    assert(from_be32(a, 0) == from_be32(hk, 0)) by {
        assert(a[0] == hk[0]);
        assert(a[1] == hk[1]);
        assert(a[2] == hk[2]);
        assert(a[3] == hk[3]);
    }
    assert(spec_read_hdr_len(a) == len);
    assert(a + f.subrange(k, f.len() as int) + rest =~= f + rest);
}

} // verus!
