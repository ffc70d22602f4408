//! Identifiers of peer connections, the rekeying of frames that a peer
//! server forwards, and the decisions of a peer connection: its first frame
//! and when and how it retries.
use crate::frame::{concat_bytes, spec_client_keys};
use crate::hdr::{
    spec_write_hdr_with_key, spec_write_len_to_hdr, write_hdr_with_key, write_len_to_hdr,
    MSGMAXSIZE,
};
use crate::msg::Msg;
use crate::sip::{do_hash, spec_do_hash};
use vstd::prelude::*;

verus! {

/// The bit that marks a connection id as a peer's.
pub open spec fn peer_bit() -> u64 {
    0x1_0000_0000u64
}

/// Marks a connection id as a peer's: the id with bit 32 set.
pub fn set_peer_cid(cid: u32) -> (r: u64)
    ensures
        r == cid as u64 + peer_bit(),
{
    let r = (cid as u64) | (1u64 << 32u64);
    assert((cid as u64) | (1u64 << 32u64) == cid as u64 + 0x1_0000_0000u64) by (bit_vector);
    r
}

/// The connection id under a peer mark: the low 32 bits.
pub fn clear_peer_cid(cid: u64) -> (r: u64)
    ensures
        r == cid % 0x1_0000_0000,
{
    let r = (cid as u32) as u64;
    assert((cid as u32) as u64 == cid % 0x1_0000_0000) by (bit_vector);
    r
}

/// Clearing the peer mark of a marked connection id gives the id back.
pub proof fn lemma_clear_set_peer_cid(cid: u32)
    ensures
        (cid as u64 + peer_bit()) % 0x1_0000_0000 == cid as u64,
{
    assert((cid as int + 0x1_0000_0000int) % 0x1_0000_0000int == cid as int);
}

/// Whether a peer is set: an address is given and its port is not 0.
pub fn has_peer(peer: &Option<u16>) -> (r: bool)
    ensures
        r == (match *peer {
            Some(port) => port != 0,
            None => false,
        }),
{
    match peer {
        Some(port) => *port != 0,
        None => false,
    }
}

/// The header and key with which a peer server forwards a first frame of
/// length `len`: keyed with the hash of its own address, the address key
/// when set, and the uid and channel of the decoded message.
pub open spec fn spec_update_key(uid: Seq<char>, channel: Seq<char>, len: usize, keyaddr: Seq<char>, laddr: Seq<char>) -> Seq<u8> {
    spec_write_hdr_with_key(len, spec_do_hash(spec_client_keys(seq![], laddr, keyaddr, uid, channel)))
}

/// Rekeys a first frame of length `len` for forwarding to a peer server.
pub fn update_key(decoded_message: &Msg, len: usize, keyaddr: String, laddr: String) -> (r: Vec<u8>)
    ensures
        r@ == spec_update_key(decoded_message@.uid, decoded_message@.channel, len, keyaddr@, laddr@),
{
    let mut keys: Vec<String> = Vec::new();
    keys.push(laddr);
    if !keyaddr.as_str().is_empty() {
        keys.push(keyaddr);
    }
    keys.push(decoded_message.get_uid().clone());
    keys.push(decoded_message.get_channel().clone());
    proof {
        let k = spec_client_keys(seq![], laddr@, keyaddr@, decoded_message@.uid, decoded_message@.channel);
        assert(keys@.map_values(|s: String| s@) =~= k);
    }
    let key = do_hash(keys.as_slice());
    write_hdr_with_key(len, key)
}

/// The wait before the first retry of a peer connection, in seconds; each
/// failed attempt doubles it.
pub const WAITTIME: u64 = 5;

/// The longest wait between attempts of a peer connection, in seconds.
pub const MAXWAIT: u64 = 600;

/// The wait after the failed attempt counted by `loopcnt`, whether the peer's
/// counters are cleared (at the longest wait), and the next count.
pub fn retry_wait(loopcnt: u64) -> (r: (u64, bool, u64))
    requires
        WAITTIME * loopcnt <= u64::MAX,
        2 * loopcnt <= u64::MAX,
    ensures
        r.0 == (if WAITTIME * loopcnt > MAXWAIT {
            MAXWAIT as int
        } else {
            WAITTIME * loopcnt
        }),
        r.1 == (r.0 == MAXWAIT),
        r.2 == 2 * loopcnt,
{
    let mut wait = WAITTIME * loopcnt;
    if wait > MAXWAIT {
        wait = MAXWAIT;
    }
    (wait, wait == MAXWAIT, loopcnt * 2)
}

/// Whether a failed peer connection is given up for good: the peer closed it
/// before anything was received from it, which a wrong key or a duplicate
/// user causes.
pub fn peer_gives_up(unexpected_eof: bool, rx_stats: u64) -> (r: bool)
    ensures
        r == (unexpected_eof && rx_stats == 0),
{
    unexpected_eof && rx_stats == 0
}

/// The first frame that a peer connection sends, and whether it joins the
/// peer's history. `hdr` is the header and key of the client's first frame,
/// `message` its message, `history_len` the number of messages in the peer's
/// history and `resync` that history encoded as a resynchronization. With
/// more than one message in the history the resynchronization is sent in
/// place of the message, unless it is too large for a frame.
pub open spec fn spec_peer_first_frame(
    hdr: Seq<u8>,
    message: Seq<u8>,
    history_len: nat,
    resync: Seq<u8>,
) -> (Seq<u8>, bool) {
    if history_len > 1 {
        if resync.len() <= MSGMAXSIZE {
            (spec_write_len_to_hdr(resync.len() as usize, hdr) + resync, false)
        } else {
            (hdr + message, false)
        }
    } else {
        (hdr + message, true)
    }
}

/// The first frame that a peer connection sends, and whether it joins the
/// peer's history.
pub fn peer_first_frame(hdr: Vec<u8>, message: &Vec<u8>, history_len: usize, resync: &Vec<u8>) -> (r: (
    Vec<u8>,
    bool,
))
    ensures
        (r.0@, r.1) == spec_peer_first_frame(hdr@, message@, history_len as nat, resync@),
{
    if history_len > 1 {
        if resync.len() <= MSGMAXSIZE {
            let h = write_len_to_hdr(resync.len(), hdr);
            (concat_bytes(&h, resync), false)
        } else {
            (concat_bytes(&hdr, message), false)
        }
    } else {
        (concat_bytes(&hdr, message), true)
    }
}

} // verus!
