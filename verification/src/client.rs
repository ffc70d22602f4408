//! The decisions of the Mles clients: which WebSocket subprotocol the proxy
//! accepts, the frames a client sends, and the lines the console client
//! reads and prints.
use crate::frame::{spec_client_keys, FrameError};
use crate::hdr::{spec_select_cid, spec_write_hdr};
use crate::hdr::MsgHdr;
use crate::sip::spec_do_hash;
use crate::text::{bytes_eq, str_chars};
use crate::websocket::ACCEPTED_PROTOCOL;
use vstd::prelude::*;
use vstd::utf8::{decode_utf8, encode_utf8, valid_utf8};

verus! {

// ---------------------------------------------------------------------------
// The subprotocol check of the WebSocket proxy
// ---------------------------------------------------------------------------

/// The pieces of `s` between the bytes `sep`, empty ones included, as
/// `str::split` gives them.
pub open spec fn split_on(s: Seq<u8>, sep: u8) -> Seq<Seq<u8>>
    decreases s.len(),
{
    if s.len() == 0 {
        seq![seq![]]
    } else {
        let r = split_on(s.drop_last(), sep);
        if s.last() == sep {
            r.push(seq![])
        } else {
            r.update(r.len() - 1, r.last().push(s.last()))
        }
    }
}

proof fn lemma_split_on_len(s: Seq<u8>, sep: u8)
    ensures
        split_on(s, sep).len() >= 1,
    decreases s.len(),
{
    if s.len() > 0 {
        lemma_split_on_len(s.drop_last(), sep);
    }
}

/// Whether a `Sec-WebSocket-Protocol` header value names the Mles
/// subprotocol: one of its comma-separated pieces, untrimmed, is it.
pub open spec fn spec_accepts_protocol(value: Seq<u8>) -> bool {
    split_on(value, 44u8).contains(encode_utf8(ACCEPTED_PROTOCOL@))
}

/// Whether a `Sec-WebSocket-Protocol` header value names the Mles
/// subprotocol.
pub fn accepts_protocol(value: &[u8]) -> (r: bool)
    ensures
        r == spec_accepts_protocol(value@),
{
    let want = ACCEPTED_PROTOCOL.as_bytes();
    let n = value.len();
    let mut piece: Vec<u8> = Vec::new();
    let mut found = false;
    let ghost mut done: Seq<Seq<u8>> = seq![];
    proof {
        assert(value@.take(0) =~= Seq::<u8>::empty());
        assert(done.push(Seq::<u8>::empty()) =~= seq![Seq::<u8>::empty()]);
    }
    for i in 0..n
        invariant
            n == value@.len(),
            want@ == encode_utf8(ACCEPTED_PROTOCOL@),
            split_on(value@.take(i as int), 44u8) == done.push(piece@),
            found == done.contains(want@),
    {
        let ghost v1 = value@.take(i + 1);
        proof {
            assert(v1.drop_last() =~= value@.take(i as int));
            assert(v1.last() == value@[i as int]);
            lemma_split_on_len(value@.take(i as int), 44u8);
        }
        if value[i] == 44u8 {
            let matched = bytes_eq(piece.as_slice(), want);
            proof {
                let old_done = done;
                done = done.push(piece@);
                assert(done.contains(want@) == (old_done.contains(want@) || piece@ == want@)) by {
                    if done.contains(want@) {
                        let k = choose|k: int| 0 <= k < done.len() && done[k] == want@;
                        if k < old_done.len() {
                            assert(old_done[k] == want@);
                        }
                    }
                    if old_done.contains(want@) {
                        let k = choose|k: int| 0 <= k < old_done.len() && old_done[k] == want@;
                        assert(done[k] == want@);
                    }
                    if piece@ == want@ {
                        assert(done[old_done.len() as int] == want@);
                    }
                }
                assert(split_on(v1, 44u8) =~= done.push(Seq::<u8>::empty()));
            }
            found = found || matched;
            piece = Vec::new();
        } else {
            let ghost before = piece@;
            piece.push(value[i]);
            proof {
                assert(split_on(v1, 44u8) =~= done.push(piece@));
            }
        }
    }
    proof {
        assert(value@.take(n as int) =~= value@);
    }
    let last = bytes_eq(piece.as_slice(), want);
    proof {
        let all = done.push(piece@);
        assert(all.contains(want@) == (done.contains(want@) || piece@ == want@)) by {
            if all.contains(want@) {
                let k = choose|k: int| 0 <= k < all.len() && all[k] == want@;
                if k < done.len() {
                    assert(done[k] == want@);
                }
            }
            if done.contains(want@) {
                let k = choose|k: int| 0 <= k < done.len() && done[k] == want@;
                assert(all[k] == want@);
            }
            if piece@ == want@ {
                assert(all[done.len() as int] == want@);
            }
        }
    }
    found || last
}

// ---------------------------------------------------------------------------
// Frames a client sends
// ---------------------------------------------------------------------------

/// The frame that a proxy client sends for `buf` under key `key`: a header
/// for `buf`'s length with the key's connection id, the key, then `buf`.
pub open spec fn spec_client_frame(key: u64, buf: Seq<u8>) -> Seq<u8> {
    spec_write_hdr((buf.len() as u32 & 0xffffff) as usize, spec_select_cid(key)) + crate::hdr::be64(key)
        + buf
}

/// The key a client uses: kept once set; else the hash of its identity
/// strings followed by the uid and channel of its first message.
pub open spec fn spec_next_key(
    key: Option<u64>,
    keyval: Seq<char>,
    laddr: Seq<char>,
    keyaddr: Seq<char>,
    uid: Seq<char>,
    channel: Seq<char>,
) -> u64 {
    match key {
        Some(k) => k,
        None => spec_do_hash(spec_client_keys(keyval, laddr, keyaddr, uid, channel)),
    }
}

/// The frame that the WebSocket proxy sends to the server for a message
/// `buf` from its WebSocket client, and the key it keeps: an empty message
/// breaks the connection; the first message fixes the key, from the
/// identity strings and the message's uid and channel (`uid` and `channel`,
/// decoded from `buf` by the caller).
pub fn proxy_frame(
    key: Option<u64>,
    keyval: &String,
    laddr: &String,
    keyaddr: &String,
    uid: &String,
    channel: &String,
    buf: &Vec<u8>,
) -> (r: Result<(Vec<u8>, u64), FrameError>)
    ensures
        buf@.len() == 0 ==> r == Err::<(Vec<u8>, u64), FrameError>(FrameError::BrokenPipe),
        buf@.len() != 0 ==> (r matches Ok((frame, k)) && k == spec_next_key(
            key,
            keyval@,
            laddr@,
            keyaddr@,
            uid@,
            channel@,
        ) && frame@ == spec_client_frame(k, buf@)),
{
    if buf.len() == 0 {
        return Err(FrameError::BrokenPipe);
    }
    let k = match key {
        Some(k) => k,
        None => crate::frame::client_key(keyval, laddr, keyaddr, uid, channel),
    };
    let hdr = MsgHdr::new(buf.len() as u32, MsgHdr::select_cid(k), k);
    let mut frame = hdr.encode();
    let ghost head = frame@;
    let n = buf.len();
    for i in 0..n
        invariant
            n == buf@.len(),
            frame@ == head + buf@.take(i as int),
    {
        frame.push(buf[i]);
        assert(frame@ =~= head + buf@.take(i + 1));
    }
    assert(buf@.take(n as int) =~= buf@);
    Ok((frame, k))
}

// ---------------------------------------------------------------------------
// The console client
// ---------------------------------------------------------------------------

/// What `String::from_utf8_lossy` makes of some bytes.
pub uninterp spec fn lossy_utf8(bytes: Seq<u8>) -> Seq<char>;

/// `String::from_utf8_lossy` of std, made owned: the bytes as text with each
/// invalid sequence replaced by U+FFFD. The contract names the result and
/// states what the documentation promises for valid UTF-8: it is decoded as
/// it is. What replaces invalid sequences is left unsaid.
#[verifier::external_body]
fn utf8_lossy(bytes: &[u8]) -> (r: String)
    ensures
        r@ == lossy_utf8(bytes@),
        valid_utf8(bytes@) ==> r@ == decode_utf8(bytes@),
{
    String::from_utf8_lossy(bytes).into_owned()
}

/// The line that the console client prints for a received message: the
/// sender's uid, ':' and the message as text; nothing for an empty message.
pub open spec fn spec_console_line(uid: Seq<char>, message: Seq<u8>) -> Seq<char> {
    if message.len() > 0 {
        uid + ":"@ + lossy_utf8(message)
    } else {
        seq![]
    }
}

/// The line that the console client prints for a received message.
pub fn console_line(uid: &str, message: &[u8]) -> (r: String)
    ensures
        r@ == spec_console_line(uid@, message@),
{
    if message.len() > 0 {
        let text = utf8_lossy(message);
        String::from_str(uid).concat(":").concat(text.as_str())
    } else {
        String::new()
    }
}

/// A name typed on the console: the `n` bytes read, `n` at least 1, without
/// the line feed that ends them and then without a carriage return that ends
/// the text.
pub open spec fn spec_input_name(read: Seq<u8>) -> Seq<char> {
    let t = lossy_utf8(read.drop_last());
    if t.len() > 0 && t.last() == '\r' {
        t.drop_last()
    } else {
        t
    }
}

/// A name typed on the console, from the bytes `read` (at least 1) that one
/// read gave.
pub fn input_name(read: &[u8]) -> (r: String)
    requires
        read@.len() >= 1,
    ensures
        r@ == spec_input_name(read@),
{
    let n = read.len();
    let mut body: Vec<u8> = Vec::new();
    for i in 0..n - 1
        invariant
            n == read@.len(),
            n >= 1,
            body@ == read@.take(i as int),
    {
        body.push(read[i]);
        assert(body@ =~= read@.take(i + 1));
    }
    assert(body@ =~= read@.drop_last());
    let text = utf8_lossy(body.as_slice());
    let cs = str_chars(text.as_str());
    let len = cs.len();
    if len > 0 && cs[len - 1] == '\r' {
        let s = text.as_str().substring_char(0, len - 1);
        proof {
            assert(text@.subrange(0, len - 1) =~= text@.drop_last());
        }
        String::from_str(s)
    } else {
        text
    }
}

/// The greeting the console client prints after joining.
pub fn welcome(user: &str, channel: &str) -> (r: String)
    ensures
        r@ == "Welcome "@ + user@ + " to "@ + channel@ + "!\n"@,
{
    String::from_str("Welcome ").concat(user).concat(" to ").concat(channel).concat("!\n")
}

} // verus!
