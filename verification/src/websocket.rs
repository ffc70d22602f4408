//! The WebSocket side of the server: the rules for a client's first message
//! and for the messages that follow, per-connection rate limiting, the
//! bounded history of a channel, and the hub that joins users to channels
//! and fans their messages out.
use crate::auth::{opt_str_view, spec_verify_auth, verify_auth};
use crate::sip::{hashed_str, push_str_bytes, sip_hash, siphash};
use std::collections::HashMap;
use std::collections::VecDeque;
use vstd::prelude::*;
use vstd::std_specs::hash::spec_keys_iter;
use vstd::std_specs::iter::IteratorSpec;
use vstd::utf8::{encode_utf8, is_ascii_chars};

verus! {

broadcast use vstd::std_specs::hash::group_hash_axioms;

/// The WebSocket subprotocol that clients must ask for.
pub const ACCEPTED_PROTOCOL: &'static str = "mles-websocket";

/// Buffered messages per connection.
pub const WS_BUF: usize = 128;

/// Days of inactivity after which a channel's history is dropped.
pub const CHANNEL_CLEANUP_DAYS: u64 = 30;

/// The inactivity after which a channel's history is dropped, in nanoseconds.
pub const CHANNEL_CLEANUP_NANOS: u128 = 2592000000000000;

/// Seconds a client has to send its first message.
pub const INIT_TIMEOUT_SECS: u64 = 30;

/// The largest message a client may send, in bytes.
pub const MAX_MESSAGE_SIZE: usize = 1048576;

/// Pending messages after which a client counts as slow.
pub const SLOW_CLIENT_THRESHOLD: usize = 118;

/// The most bytes a channel's history holds.
pub const MESSAGE_HISTORY_MAX_BYTES: usize = 10485760;

/// Nanoseconds in a second.
pub const NANOS_PER_SEC: u128 = 1000000000;

/// Settings of the WebSocket service.
#[derive(Clone, Debug)]
pub struct WebSocketConfig {
    pub ping_interval_ms: u64,
    pub max_missed_pongs: u64,
    pub rate_limit_messages_per_sec: u32,
    pub rate_limit_window_secs: u64,
}

impl Default for WebSocketConfig {
    fn default() -> (r: Self)
        ensures
            r.ping_interval_ms == 24000,
            r.max_missed_pongs == 3,
            r.rate_limit_messages_per_sec == 100,
            r.rate_limit_window_secs == 1,
    {
        WebSocketConfig {
            ping_interval_ms: 24000,
            max_missed_pongs: 3,
            rate_limit_messages_per_sec: 100,
            rate_limit_window_secs: 1,
        }
    }
}

/// The kind of a WebSocket message.
#[derive(Clone, Copy, Debug, PartialEq, Eq, Structural)]
pub enum MsgKind {
    Text,
    Binary,
    Ping,
    Pong,
    Close,
}

/// A WebSocket message as the server keeps it: its kind and its payload.
pub struct WsMessage {
    pub kind: MsgKind,
    pub data: Vec<u8>,
}

/// What a message holds.
pub open spec fn msg_view(m: WsMessage) -> (MsgKind, Seq<u8>) {
    (m.kind, m.data@)
}

/// The views of the messages `q`.
pub open spec fn msgs_view(q: Seq<WsMessage>) -> Seq<(MsgKind, Seq<u8>)> {
    q.map_values(|m: WsMessage| msg_view(m))
}

impl WsMessage {
    /// A copy of the message.
    pub fn copy(&self) -> (r: WsMessage)
        ensures
            msg_view(r) == msg_view(*self),
    {
        let data = self.data.clone();
        assert(data@ =~= self.data@);
        WsMessage { kind: self.kind, data }
    }
}

// ---------------------------------------------------------------------------
// The history of a channel
// ---------------------------------------------------------------------------

/// The bytes held by the messages `q`.
pub open spec fn history_bytes(q: Seq<(MsgKind, Seq<u8>)>) -> nat
    decreases q.len(),
{
    if q.len() == 0 {
        0
    } else {
        q[0].1.len() + history_bytes(q.drop_first())
    }
}

/// `a - b`, or 0 when `b` is larger.
pub open spec fn sat_sub(a: nat, b: nat) -> nat {
    if a >= b {
        (a - b) as nat
    } else {
        0
    }
}

/// The history `q` with byte count `cur` after dropping its oldest messages
/// while `size` more bytes would exceed the byte limit.
pub open spec fn evict_for_bytes(q: Seq<(MsgKind, Seq<u8>)>, cur: nat, size: nat) -> (
    Seq<(MsgKind, Seq<u8>)>,
    nat,
)
    decreases q.len(),
{
    if q.len() > 0 && cur + size > MESSAGE_HISTORY_MAX_BYTES {
        evict_for_bytes(q.drop_first(), sat_sub(cur, q[0].1.len()), size)
    } else {
        (q, cur)
    }
}

/// The history and byte count after adding `m` to history `q` with byte
/// count `cur` under the message limit `limit`: old messages leave first to
/// keep the bytes within the byte limit, then the oldest one leaves when the
/// history holds `limit` messages, then `m` is appended.
pub open spec fn spec_add_message(q: Seq<(MsgKind, Seq<u8>)>, cur: nat, limit: nat, m: (
    MsgKind,
    Seq<u8>,
)) -> (Seq<(MsgKind, Seq<u8>)>, nat) {
    let (q1, c1) = evict_for_bytes(q, cur, m.1.len());
    let (q2, c2) = if q1.len() == limit && q1.len() > 0 {
        (q1.drop_first(), sat_sub(c1, q1[0].1.len()))
    } else {
        (q1, c1)
    };
    (q2.push(m), c2 + m.1.len())
}

/// The capacity of a deque, from `VecDeque::capacity`; it depends on the
/// allocator's choices and is not stated.
#[verifier::external_body]
fn deque_capacity(q: &VecDeque<WsMessage>) -> usize {
    q.capacity()
}

/// Adds `msg` to a channel's history `queue` whose bytes are counted in
/// `current_bytes`, as `spec_add_message` says. Always answers `true`.
pub fn add_message(
    msg: WsMessage,
    limit: u32,
    queue: &mut VecDeque<WsMessage>,
    current_bytes: &mut usize,
) -> (r: bool)
    requires
        *old(current_bytes) + msg.data@.len() <= usize::MAX,
    ensures
        r,
        (msgs_view(final(queue)@), *final(current_bytes) as nat) == spec_add_message(
            msgs_view(old(queue)@),
            *old(current_bytes) as nat,
            limit as nat,
            msg_view(msg),
        ),
{
    let msg_size = msg.data.len();
    let ghost m = msg_view(msg);
    if *current_bytes + msg_size > MESSAGE_HISTORY_MAX_BYTES {
        while queue.len() != 0 && *current_bytes + msg_size > MESSAGE_HISTORY_MAX_BYTES
            invariant
                *current_bytes + msg_size <= usize::MAX,
                msg_size == m.1.len(),
                evict_for_bytes(msgs_view(queue@), *current_bytes as nat, msg_size as nat)
                    == evict_for_bytes(
                    msgs_view(old(queue)@),
                    *old(current_bytes) as nat,
                    msg_size as nat,
                ),
            decreases queue@.len(),
        {
            let ghost before = queue@;
            if let Some(old_msg) = queue.pop_front() {
                *current_bytes = current_bytes.saturating_sub(old_msg.data.len());
                assert(msgs_view(queue@) =~= msgs_view(before).drop_first());
            }
        }
    }
    let ghost q1 = msgs_view(queue@);
    let ghost c1 = *current_bytes as nat;
    assert(evict_for_bytes(q1, c1, msg_size as nat) == (q1, c1));
    let limit = limit as usize;
    let len = queue.len();
    let cap = deque_capacity(queue);
    if cap < limit && len == cap && cap >= limit - cap {
        queue.reserve(limit - cap);
    }
    if len == limit {
        let ghost before = queue@;
        if let Some(old_msg) = queue.pop_front() {
            *current_bytes = current_bytes.saturating_sub(old_msg.data.len());
            assert(msgs_view(queue@) =~= msgs_view(before).drop_first());
        }
    }
    *current_bytes += msg_size;
    let ghost before = queue@;
    queue.push_back(msg);
    assert(msgs_view(queue@) =~= msgs_view(before).push(m));
    true
}

/// The history's byte count stays exact: when `cur` counts the bytes of `q`,
/// the count after adding a message counts the bytes of the new history.
pub proof fn lemma_add_message_bytes_exact(
    q: Seq<(MsgKind, Seq<u8>)>,
    limit: nat,
    m: (MsgKind, Seq<u8>),
)
    ensures
        spec_add_message(q, history_bytes(q), limit, m).1 == history_bytes(
            spec_add_message(q, history_bytes(q), limit, m).0,
        ),
{
    lemma_evict_exact(q, history_bytes(q), m.1.len());
    let (q1, c1) = evict_for_bytes(q, history_bytes(q), m.1.len());
    let (q2, c2) = if q1.len() == limit && q1.len() > 0 {
        (q1.drop_first(), sat_sub(c1, q1[0].1.len()))
    } else {
        (q1, c1)
    };
    lemma_history_bytes_push(q2, m);
}

/// A history of at most `limit` messages, `limit` at least 1, stays within
/// `limit` messages; a history within the byte limit that counts its bytes
/// exactly stays within it when the new message is itself within it.
pub proof fn lemma_add_message_bounded(
    q: Seq<(MsgKind, Seq<u8>)>,
    limit: nat,
    m: (MsgKind, Seq<u8>),
)
    requires
        limit >= 1,
        q.len() <= limit,
        m.1.len() <= MESSAGE_HISTORY_MAX_BYTES,
    ensures
        spec_add_message(q, history_bytes(q), limit, m).0.len() <= limit,
        spec_add_message(q, history_bytes(q), limit, m).1 <= MESSAGE_HISTORY_MAX_BYTES,
        spec_add_message(q, history_bytes(q), limit, m).0.last() == m,
{
    lemma_evict_exact(q, history_bytes(q), m.1.len());
    lemma_evict_shorter(q, history_bytes(q), m.1.len());
    let (q1, c1) = evict_for_bytes(q, history_bytes(q), m.1.len());
    if q1.len() == 0 {
        assert(history_bytes(q1) == 0);
    }
    if q1.len() == limit && q1.len() > 0 {
        assert(history_bytes(q1) == q1[0].1.len() + history_bytes(q1.drop_first()));
    }
}

proof fn lemma_evict_exact(q: Seq<(MsgKind, Seq<u8>)>, cur: nat, size: nat)
    requires
        cur == history_bytes(q),
    ensures
        evict_for_bytes(q, cur, size).1 == history_bytes(evict_for_bytes(q, cur, size).0),
        evict_for_bytes(q, cur, size).1 + size <= MESSAGE_HISTORY_MAX_BYTES || evict_for_bytes(
            q,
            cur,
            size,
        ).0.len() == 0,
    decreases q.len(),
{
    if q.len() > 0 && cur + size > MESSAGE_HISTORY_MAX_BYTES {
        lemma_evict_exact(q.drop_first(), sat_sub(cur, q[0].1.len()), size);
    }
}

proof fn lemma_evict_shorter(q: Seq<(MsgKind, Seq<u8>)>, cur: nat, size: nat)
    ensures
        evict_for_bytes(q, cur, size).0.len() <= q.len(),
    decreases q.len(),
{
    if q.len() > 0 && cur + size > MESSAGE_HISTORY_MAX_BYTES {
        lemma_evict_shorter(q.drop_first(), sat_sub(cur, q[0].1.len()), size);
    }
}

proof fn lemma_history_bytes_push(q: Seq<(MsgKind, Seq<u8>)>, m: (MsgKind, Seq<u8>))
    ensures
        history_bytes(q.push(m)) == history_bytes(q) + m.1.len(),
    decreases q.len(),
{
    let p = q.push(m);
    if q.len() > 0 {
        assert(p.drop_first() =~= q.drop_first().push(m));
        lemma_history_bytes_push(q.drop_first(), m);
        assert(p[0] == q[0]);
    } else {
        assert(p.drop_first() =~= Seq::<(MsgKind, Seq<u8>)>::empty());
        assert(p[0] == m);
    }
    assert(history_bytes(p) == p[0].1.len() + history_bytes(p.drop_first()));
}

// ---------------------------------------------------------------------------
// Rate limiting
// ---------------------------------------------------------------------------

/// The timestamps `q` without the leading ones that lie more than `window`
/// nanoseconds before `now`; a timestamp after `now` stops the pruning.
pub open spec fn prune(q: Seq<u128>, now: u128, window: u128) -> Seq<u128>
    decreases q.len(),
{
    if q.len() > 0 && q[0] <= now && now - q[0] > window {
        prune(q.drop_first(), now, window)
    } else {
        q
    }
}

/// Per-connection message throttling: at most `max_messages` messages per
/// sliding window.
pub struct RateLimiter {
    messages: VecDeque<u128>,
    max_messages: u32,
    window: u128,
}

impl RateLimiter {
    /// The times of the accepted messages still counted, in nanoseconds.
    pub closed spec fn spec_messages(&self) -> Seq<u128> {
        self.messages@
    }

    /// The most messages per window.
    pub closed spec fn spec_max(&self) -> nat {
        self.max_messages as nat
    }

    /// The window in nanoseconds.
    pub closed spec fn spec_window(&self) -> nat {
        self.window as nat
    }

    /// A limiter of `max_messages` messages per `window_secs` seconds.
    pub fn new(max_messages: u32, window_secs: u64) -> (r: RateLimiter)
        ensures
            r.spec_messages() == Seq::<u128>::empty(),
            r.spec_max() == max_messages,
            r.spec_window() == window_secs * NANOS_PER_SEC,
    {
        RateLimiter {
            messages: VecDeque::new(),
            max_messages,
            window: (window_secs as u128) * 1000000000u128,
        }
    }

    /// Counts a message at time `now` (nanoseconds) if the window has room:
    /// first forgets the messages older than the window, then accepts when
    /// fewer than the maximum remain.
    pub fn check_and_add(&mut self, now: u128) -> (r: bool)
        ensures
            final(self).spec_max() == old(self).spec_max(),
            final(self).spec_window() == old(self).spec_window(),
            r == (prune(old(self).spec_messages(), now, old(self).spec_window() as u128).len()
                < old(self).spec_max()),
            final(self).spec_messages() == (if r {
                prune(old(self).spec_messages(), now, old(self).spec_window() as u128).push(now)
            } else {
                prune(old(self).spec_messages(), now, old(self).spec_window() as u128)
            }),
    {
        while self.messages.len() != 0
            invariant
                self.window == old(self).window,
                self.max_messages == old(self).max_messages,
                prune(self.messages@, now, self.window) == prune(old(self).messages@, now, self.window),
            ensures
                self.window == old(self).window,
                self.max_messages == old(self).max_messages,
                prune(self.messages@, now, self.window) == self.messages@,
                self.messages@ == prune(old(self).messages@, now, self.window),
            decreases self.messages@.len(),
        {
            let front = self.messages[0];
            if now >= front {
                let elapsed = now - front;
                if elapsed > self.window {
                    let ghost before = self.messages@;
                    self.messages.pop_front();
                    assert(self.messages@ =~= before.drop_first());
                } else {
                    break;
                }
            } else {
                break;
            }
        }
        if self.messages.len() >= self.max_messages as usize {
            return false;
        }
        self.messages.push_back(now);
        true
    }
}

/// A limiter never counts more messages than its maximum, when it starts
/// within it.
pub proof fn lemma_rate_limit_bounded(q: Seq<u128>, now: u128, window: u128, max: nat)
    requires
        q.len() <= max,
    ensures
        prune(q, now, window).len() <= q.len(),
        prune(q, now, window).len() < max ==> prune(q, now, window).push(now).len() <= max,
    decreases q.len(),
{
    if q.len() > 0 && q[0] <= now && now - q[0] > window {
        lemma_rate_limit_bounded(q.drop_first(), now, window, max);
    }
}

/// The times in `q` are in order and none lies after `now`: what a limiter
/// holds when its clock never goes back.
pub open spec fn times_ordered(q: Seq<u128>, now: u128) -> bool {
    &&& forall|i: int, j: int| 0 <= i <= j < q.len() ==> q[i] <= q[j]
    &&& forall|i: int| 0 <= i < q.len() ==> q[i] <= now
}

/// The times in `q` that lie within `window` nanoseconds of `now`, in order.
pub open spec fn recent(q: Seq<u128>, now: u128, window: u128) -> Seq<u128>
    decreases q.len(),
{
    if q.len() == 0 {
        q
    } else if now - q[0] <= window {
        seq![q[0]] + recent(q.drop_first(), now, window)
    } else {
        recent(q.drop_first(), now, window)
    }
}

proof fn lemma_recent_all(q: Seq<u128>, now: u128, window: u128)
    requires
        forall|i: int| 0 <= i < q.len() ==> now - q[i] <= window,
    ensures
        recent(q, now, window) == q,
    decreases q.len(),
{
    if q.len() > 0 {
        assert(now - q[0] <= window);
        assert forall|i: int| 0 <= i < q.drop_first().len() implies now - q.drop_first()[i]
            <= window by {
            assert(q.drop_first()[i] == q[i + 1]);
        }
        lemma_recent_all(q.drop_first(), now, window);
        assert(seq![q[0]] + q.drop_first() =~= q);
    }
}

/// The sliding window over a run of calls: while the clock never goes back,
/// the limiter forgets exactly the accepted messages that lie more than the
/// window before `now`, so a call is accepted if and only if fewer than the
/// maximum accepted messages lie within the window of `now`
/// (`RateLimiter::check_and_add`); and what it keeps, with `now` added when
/// accepted, is again in order for any later call.
pub proof fn lemma_sliding_window(q: Seq<u128>, now: u128, later: u128, window: u128)
    requires
        times_ordered(q, now),
        now <= later,
    ensures
        prune(q, now, window) == recent(q, now, window),
        times_ordered(recent(q, now, window), later),
        times_ordered(recent(q, now, window).push(now), later),
    decreases q.len(),
{
    if q.len() > 0 && now - q[0] > window {
        let t = q.drop_first();
        assert forall|i: int, j: int| 0 <= i <= j < t.len() implies t[i] <= t[j] by {
            assert(t[i] == q[i + 1] && t[j] == q[j + 1]);
        }
        assert forall|i: int| 0 <= i < t.len() implies t[i] <= now by {
            assert(t[i] == q[i + 1]);
        }
        lemma_sliding_window(t, now, later, window);
    } else if q.len() > 0 {
        assert forall|i: int| 0 <= i < q.len() implies now - q[i] <= window by {
            assert(q[0] <= q[i]);
        }
        lemma_recent_all(q, now, window);
        let p = q.push(now);
        assert forall|i: int, j: int| 0 <= i <= j < p.len() implies p[i] <= p[j] by {
            if j == q.len() {
                if i < q.len() {
                    assert(p[i] == q[i]);
                }
            } else {
                assert(p[i] == q[i] && p[j] == q[j]);
            }
        }
        assert forall|i: int| 0 <= i < p.len() implies p[i] <= later by {
            if i < q.len() {
                assert(p[i] == q[i]);
            }
        }
    } else {
        let p = q.push(now);
        assert(p.len() == 1 && p[0] == now);
    }
}

// ---------------------------------------------------------------------------
// A client's first message and the messages after it
// ---------------------------------------------------------------------------

/// Why a connection is refused at its first message.
#[derive(Clone, Copy, Debug, PartialEq, Eq, Structural)]
pub enum InitReject {
    /// The first message is not text.
    NotText,
    /// The first message is over the size limit.
    TooLarge,
    /// The uid or channel holds a character outside ASCII.
    NotAscii,
    /// The uid or channel is empty.
    Empty,
    /// The auth does not match.
    AuthFailed,
}

/// Checks the frame of a client's first message: text, within the size limit.
pub fn check_init_frame(kind: MsgKind, size: usize) -> (r: Result<(), InitReject>)
    ensures
        r == (if kind != MsgKind::Text {
            Err(InitReject::NotText)
        } else if size > MAX_MESSAGE_SIZE {
            Err(InitReject::TooLarge)
        } else {
            Ok(())
        }),
{
    if kind != MsgKind::Text {
        return Err(InitReject::NotText);
    }
    if size > MAX_MESSAGE_SIZE {
        return Err(InitReject::TooLarge);
    }
    Ok(())
}

/// The id of a channel: the hash of its name's bytes.
pub open spec fn channel_id(channel: Seq<char>) -> u64 {
    siphash(encode_utf8(channel))
}

/// The bytes of a `usize` of value `d` in little-endian order.
pub open spec fn usize_le_bytes(d: u8) -> Seq<u8> {
    seq![d] + Seq::new((usize::BITS / 8 - 1) as nat, |i: int| 0u8)
}

/// The bytes that hashing a header with std's derived `Hash` feeds to a
/// hasher: the uid and the channel as strings, the variant index of the auth
/// (0 for none, 1 for some) as a `usize`, then the auth as a string if any.
pub open spec fn hashed_header(uid: Seq<char>, channel: Seq<char>, auth: Option<Seq<char>>) -> Seq<u8> {
    hashed_str(uid) + hashed_str(channel) + match auth {
        Some(a) => usize_le_bytes(1) + hashed_str(a),
        None => usize_le_bytes(0),
    }
}

/// The id of a user on a channel: the hash of its header.
pub open spec fn user_id(uid: Seq<char>, channel: Seq<char>, auth: Option<Seq<char>>) -> u64 {
    siphash(hashed_header(uid, channel, auth))
}

/// Appends the bytes of a `usize` of value `d` in little-endian order.
fn push_usize_le(data: &mut Vec<u8>, d: u8)
    ensures
        final(data)@ == old(data)@ + usize_le_bytes(d),
{
    let ghost start = data@;
    data.push(d);
    let n: u32 = usize::BITS / 8;
    let mut i: u32 = 1;
    while i < n
        invariant
            n == usize::BITS / 8,
            1 <= i <= n,
            data@ == start + seq![d] + Seq::new((i - 1) as nat, |k: int| 0u8),
        decreases n - i,
    {
        let ghost before = data@;
        data.push(0u8);
        assert(data@ =~= start + seq![d] + Seq::new(i as nat, |k: int| 0u8));
        i = i + 1;
    }
    assert(data@ =~= old(data)@ + usize_le_bytes(d));
}

/// The id of a user on a channel: SipHash over its header as std's derived
/// `Hash` writes it.
pub fn hash_user(uid: &str, channel: &str, auth: Option<&str>) -> (r: u64)
    ensures
        r == user_id(uid@, channel@, opt_str_view(auth)),
{
    let mut data: Vec<u8> = Vec::new();
    push_str_bytes(&mut data, uid);
    data.push(0xffu8);
    push_str_bytes(&mut data, channel);
    data.push(0xffu8);
    let ghost head = data@;
    match auth {
        Some(a) => {
            push_usize_le(&mut data, 1);
            push_str_bytes(&mut data, a);
            data.push(0xffu8);
        },
        None => {
            push_usize_le(&mut data, 0);
        },
    }
    assert(data@ =~= hashed_header(uid@, channel@, opt_str_view(auth)));
    sip_hash(data.as_slice())
}

/// What the header of a client's first message gives: the user id and the
/// channel id, or why the connection is refused.
pub open spec fn spec_check_init_header(
    uid: Seq<char>,
    channel: Seq<char>,
    auth: Option<Seq<char>>,
    key: Option<Seq<char>>,
) -> Result<(u64, u64), InitReject> {
    if !is_ascii_chars(uid) || !is_ascii_chars(channel) {
        Err(InitReject::NotAscii)
    } else if uid.len() == 0 || channel.len() == 0 {
        Err(InitReject::Empty)
    } else if !spec_verify_auth(uid, channel, auth, key) {
        Err(InitReject::AuthFailed)
    } else {
        Ok((user_id(uid, channel, auth), channel_id(channel)))
    }
}

/// Checks the header of a client's first message against the server key and
/// gives the user id and the channel id.
pub fn check_init_header(uid: &str, channel: &str, auth: Option<&str>, key: Option<&str>) -> (r:
    Result<(u64, u64), InitReject>)
    ensures
        r == spec_check_init_header(uid@, channel@, opt_str_view(auth), opt_str_view(key)),
{
    if !uid.is_ascii() || !channel.is_ascii() {
        return Err(InitReject::NotAscii);
    }
    if uid.is_empty() || channel.is_empty() {
        return Err(InitReject::Empty);
    }
    let h = hash_user(uid, channel, auth);
    let ch = sip_hash(channel.as_bytes());
    if !verify_auth(uid, channel, auth, key) {
        return Err(InitReject::AuthFailed);
    }
    Ok((h, ch))
}

/// The header of a client's first message: who it is, the channel it joins
/// and its optional authentication hash.
pub struct MlesHeader {
    pub uid: String,
    pub channel: String,
    pub auth: Option<String>,
}

impl MlesHeader {
    /// Checks the header against the server key `key`; gives the user id and
    /// the channel id.
    pub fn check(&self, key: Option<&str>) -> (r: Result<(u64, u64), InitReject>)
        ensures
            r == spec_check_init_header(
                self.uid@,
                self.channel@,
                match self.auth {
                    Some(a) => Some(a@),
                    None => None,
                },
                opt_str_view(key),
            ),
    {
        let auth = match &self.auth {
            Some(a) => Some(a.as_str()),
            None => None,
        };
        check_init_header(self.uid.as_str(), self.channel.as_str(), auth, key)
    }
}

/// What to do with a message a client sent after joining.
#[derive(Clone, Copy, Debug, PartialEq, Eq, Structural)]
pub enum ClientAction {
    /// The connection is over: stop reading.
    Stop,
    /// The connection is in a bad state: count an error and stop reading.
    StopInvalid,
    /// The client closed: stop reading.
    Closed,
    /// A pong: note that the client is alive.
    Pong,
    /// Over the size limit: count an error and drop it.
    DropTooLarge,
    /// Over the rate limit: count an error and drop it.
    DropRateLimited,
    /// Forward it to the channel.
    Forward,
}

/// Decides what to do with a message a client sent after joining, at time
/// `now`; only a message that passes the size check is counted by the rate
/// limiter.
pub fn on_client_message(
    is_closed: bool,
    h: u64,
    kind: MsgKind,
    size: usize,
    limiter: &mut RateLimiter,
    now: u128,
) -> (r: ClientAction)
    ensures
        r == (if is_closed {
            ClientAction::Stop
        } else if h == 0 {
            ClientAction::StopInvalid
        } else if kind == MsgKind::Close {
            ClientAction::Closed
        } else if kind == MsgKind::Pong {
            ClientAction::Pong
        } else if size > MAX_MESSAGE_SIZE {
            ClientAction::DropTooLarge
        } else if prune(old(limiter).spec_messages(), now, old(limiter).spec_window() as u128).len()
            >= old(limiter).spec_max() {
            ClientAction::DropRateLimited
        } else {
            ClientAction::Forward
        }),
        (r == ClientAction::Forward || r == ClientAction::DropRateLimited) ==> final(limiter).spec_messages() == (if r == ClientAction::Forward {
            prune(old(limiter).spec_messages(), now, old(limiter).spec_window() as u128).push(now)
        } else {
            prune(old(limiter).spec_messages(), now, old(limiter).spec_window() as u128)
        }),
        !(r == ClientAction::Forward || r == ClientAction::DropRateLimited) ==> *final(limiter)
            == *old(limiter),
        final(limiter).spec_max() == old(limiter).spec_max(),
        final(limiter).spec_window() == old(limiter).spec_window(),
{
    if is_closed {
        return ClientAction::Stop;
    }
    if h == 0 {
        return ClientAction::StopInvalid;
    }
    if kind == MsgKind::Close {
        return ClientAction::Closed;
    }
    if kind == MsgKind::Pong {
        return ClientAction::Pong;
    }
    if size > MAX_MESSAGE_SIZE {
        return ClientAction::DropTooLarge;
    }
    if !limiter.check_and_add(now) {
        return ClientAction::DropRateLimited;
    }
    ClientAction::Forward
}

/// Whether a client whose pings went unanswered `ping_cnt` times is gone.
pub fn missed_too_many_pongs(ping_cnt: u64, max_missed_pongs: u64) -> (r: bool)
    ensures
        r == (ping_cnt >= max_missed_pongs),
{
    ping_cnt >= max_missed_pongs
}

/// Counts a message handed to a client's socket: the pending count grows by
/// one; past the slow-client threshold the warning count grows too, and every
/// tenth warning, starting with the first, is one to log.
pub fn note_pending(pending_count: usize, slow_client_warnings: u32) -> (r: (usize, u32, bool))
    requires
        pending_count < usize::MAX,
        slow_client_warnings < u32::MAX,
    ensures
        r.0 == pending_count + 1,
        r.1 == (if pending_count + 1 > SLOW_CLIENT_THRESHOLD {
            slow_client_warnings + 1
        } else {
            slow_client_warnings as int
        }),
        r.2 == (pending_count + 1 > SLOW_CLIENT_THRESHOLD && r.1 % 10 == 1),
{
    let pending = pending_count + 1;
    if pending > SLOW_CLIENT_THRESHOLD {
        let warnings = slow_client_warnings + 1;
        (pending, warnings, warnings % 10 == 1)
    } else {
        (pending, slow_client_warnings, false)
    }
}


// ---------------------------------------------------------------------------
// The hub of channels
// ---------------------------------------------------------------------------

/// The history of a channel, the bytes it holds and when it was last
/// active (nanoseconds).
pub struct ChannelInfo {
    pub messages: VecDeque<WsMessage>,
    pub last_activity: u128,
    pub history_bytes: usize,
}

/// What a channel's history holds: its messages, the bytes it counts and
/// when it was last active (nanoseconds).
pub type HistoryView = (Seq<(MsgKind, Seq<u8>)>, nat, u128);

/// The view of a channel's history.
pub open spec fn info_view(ci: ChannelInfo) -> HistoryView {
    (msgs_view(ci.messages@), ci.history_bytes as nat, ci.last_activity)
}

/// `s` without the occurrences of `h`, in order.
pub open spec fn without(s: Seq<u64>, h: u64) -> Seq<u64>
    decreases s.len(),
{
    if s.len() == 0 {
        s
    } else if s.last() == h {
        without(s.drop_last(), h)
    } else {
        without(s.drop_last(), h).push(s.last())
    }
}

/// What the hub holds: the users of each channel in the order they joined,
/// the history of each channel, and the history limit.
pub struct HubView {
    pub users: Map<u64, Seq<u64>>,
    pub histories: Map<u64, HistoryView>,
    pub limit: nat,
}

/// The users of channel `ch`, none when it has none.
pub open spec fn users_of(v: HubView, ch: u64) -> Seq<u64> {
    if v.users.contains_key(ch) {
        v.users[ch]
    } else {
        seq![]
    }
}

/// The history of channel `ch`, a fresh one at time `now` when it has none.
pub open spec fn history_of(v: HubView, ch: u64, now: u128) -> HistoryView {
    if v.histories.contains_key(ch) {
        v.histories[ch]
    } else {
        (seq![], 0, now)
    }
}

/// The hub after user `h` asks at time `now` to join channel `ch` with first
/// message `m`, and the history replayed to the user: a user already in the
/// channel is refused and nothing changes; otherwise the user joins, gets the
/// channel's history as it stood, and `m` is added to it.
pub open spec fn spec_join(v: HubView, h: u64, ch: u64, m: (MsgKind, Seq<u8>), now: u128) -> (
    HubView,
    Option<Seq<(MsgKind, Seq<u8>)>>,
) {
    let us = users_of(v, ch);
    if us.contains(h) {
        (v, None)
    } else {
        let hist = history_of(v, ch, now);
        let (q2, b2) = spec_add_message(hist.0, hist.1, v.limit, m);
        (
            HubView {
                users: v.users.insert(ch, us.push(h)),
                histories: v.histories.insert(ch, (q2, b2, now)),
                ..v
            },
            Some(hist.0),
        )
    }
}

/// The hub after user `h` sends `m` to channel `ch` at time `now`, and who
/// gets it: nobody when the channel has no users; otherwise all its other
/// users, and the message joins the channel's history if it has one.
pub open spec fn spec_send(v: HubView, h: u64, ch: u64, m: (MsgKind, Seq<u8>), now: u128) -> (
    HubView,
    Option<Seq<u64>>,
) {
    if !v.users.contains_key(ch) {
        (v, None)
    } else {
        let v2 = if v.histories.contains_key(ch) {
            let hist = v.histories[ch];
            let (q2, b2) = spec_add_message(hist.0, hist.1, v.limit, m);
            HubView { histories: v.histories.insert(ch, (q2, b2, now)), ..v }
        } else {
            v
        };
        (v2, Some(without(v.users[ch], h)))
    }
}

/// The hub after user `h` leaves channel `ch`: a channel left without users
/// is forgotten; its history stays.
pub open spec fn spec_leave(v: HubView, h: u64, ch: u64) -> HubView {
    if !v.users.contains_key(ch) {
        v
    } else {
        let rest = without(v.users[ch], h);
        if rest.len() == 0 {
            HubView { users: v.users.remove(ch), ..v }
        } else {
            HubView { users: v.users.insert(ch, rest), ..v }
        }
    }
}

/// Whether a history last active at `last` is stale at `now`.
pub open spec fn stale(last: u128, now: u128) -> bool {
    last <= now && now - last > CHANNEL_CLEANUP_NANOS
}

/// The histories that remain after dropping the stale ones at `now`.
pub open spec fn spec_cleanup(hs: Map<u64, HistoryView>, now: u128) -> Map<u64, HistoryView> {
    Map::new(|c: u64| hs.contains_key(c) && !stale(hs[c].2, now), |c: u64| hs[c])
}

/// The hub's invariant: every channel with an entry has users, none twice,
/// and every history counts its bytes exactly, within the byte limit and,
/// for a limit of at least 1, within the message limit.
pub open spec fn hub_ok(v: HubView) -> bool {
    &&& forall|c: u64| #[trigger]
        v.users.contains_key(c) ==> v.users[c].len() > 0 && v.users[c].no_duplicates()
    &&& forall|c: u64| #[trigger]
        v.histories.contains_key(c) ==> {
            let hist = v.histories[c];
            &&& hist.1 == history_bytes(hist.0)
            &&& hist.1 <= MESSAGE_HISTORY_MAX_BYTES
            &&& v.limit >= 1 ==> hist.0.len() <= v.limit
        }
}

/// Whether `h` occurs in `s`.
fn contains_user(s: &Vec<u64>, h: u64) -> (r: bool)
    ensures
        r == s@.contains(h),
{
    let n = s.len();
    for i in 0..n
        invariant
            n == s@.len(),
            forall|j: int| 0 <= j < i ==> s@[j] != h,
    {
        if s[i] == h {
            return true;
        }
    }
    false
}

/// The elements of `s` other than `h`, in order.
fn users_without(s: &Vec<u64>, h: u64) -> (r: Vec<u64>)
    ensures
        r@ == without(s@, h),
{
    let mut r: Vec<u64> = Vec::new();
    let n = s.len();
    for i in 0..n
        invariant
            n == s@.len(),
            r@ == without(s@.take(i as int), h),
    {
        let ghost t = s@.take(i + 1);
        assert(t.drop_last() =~= s@.take(i as int));
        if s[i] != h {
            r.push(s[i]);
        }
    }
    assert(s@.take(n as int) =~= s@);
    r
}

/// What remains of `s` without `h` is what `s` holds other than `h`.
proof fn lemma_without_contains(s: Seq<u64>, h: u64, x: u64)
    ensures
        without(s, h).contains(x) <==> (s.contains(x) && x != h),
    decreases s.len(),
{
    if s.len() > 0 {
        let d = s.drop_last();
        lemma_without_contains(d, h, x);
        let w = without(d, h);
        assert(s == d.push(s.last()));
        if s.last() == h {
            assert(without(s, h) == w);
        } else {
            assert(without(s, h) == w.push(s.last()));
        }
        assert(s.contains(x) <==> (d.contains(x) || x == s.last())) by {
            if s.contains(x) {
                let i = choose|i: int| 0 <= i < s.len() && s[i] == x;
                if i < s.len() - 1 {
                    assert(d[i] == x);
                }
            }
            if d.contains(x) {
                let j = choose|j: int| 0 <= j < d.len() && d[j] == x;
                assert(s[j] == x);
            }
            if x == s.last() {
                assert(s[s.len() - 1] == x);
            }
        }
        assert(w.push(s.last()).contains(x) <==> (w.contains(x) || x == s.last())) by {
            if w.push(s.last()).contains(x) {
                let i = choose|i: int| 0 <= i < w.push(s.last()).len() && w.push(s.last())[i] == x;
                if i < w.len() {
                    assert(w[i] == x);
                }
            }
            if w.contains(x) {
                let j = choose|j: int| 0 <= j < w.len() && w[j] == x;
                assert(w.push(s.last())[j] == x);
            }
            if x == s.last() {
                assert(w.push(s.last())[w.len() as int] == x);
            }
        }
    }
}

/// Removing a value keeps a list free of duplicates.
proof fn lemma_without_no_dups(s: Seq<u64>, h: u64)
    requires
        s.no_duplicates(),
    ensures
        without(s, h).no_duplicates(),
        forall|x: u64| without(s, h).contains(x) <==> (s.contains(x) && x != h),
    decreases s.len(),
{
    assert forall|x: u64| without(s, h).contains(x) <==> (s.contains(x) && x != h) by {
        lemma_without_contains(s, h, x);
    }
    if s.len() > 0 {
        let d = s.drop_last();
        assert(d.no_duplicates());
        lemma_without_no_dups(d, h);
        if s.last() != h {
            assert(!d.contains(s.last())) by {
                if d.contains(s.last()) {
                    let i = choose|i: int| 0 <= i < d.len() && d[i] == s.last();
                    assert(s[i] == s[s.len() - 1]);
                }
            }
            lemma_without_contains(d, h, s.last());
        }
    }
}

/// Collects the keys of a map.
fn channel_ids(m: &HashMap<u64, ChannelInfo>) -> (r: Vec<u64>)
    ensures
        r@.to_set() == m@.dom(),
        r@.no_duplicates(),
{
    let mut ids: Vec<u64> = Vec::new();
    let ghost all = spec_keys_iter(m).remaining().unref();
    proof {
        vstd::std_specs::hash::axiom_spec_keys_iter(m);
    }
    for k in it: m.keys()
        invariant
            all == spec_keys_iter(m).remaining().unref(),
            it.seq() == spec_keys_iter(m).remaining(),
            ids@ == all.take(it.index() as int),
    {
        ids.push(*k);
        assert(ids@ =~= all.take(it.index() + 1));
    }
    assert(ids@ =~= all);
    ids
}

/// Whether `c` occurs among the first `i` elements of `s`.
pub open spec fn seen(s: Seq<u64>, i: int, c: u64) -> bool {
    exists|j: int| 0 <= j < i && #[trigger] s[j] == c
}

/// Looking at one more element adds exactly that element.
pub(crate) proof fn lemma_seen_step(s: Seq<u64>, i: int)
    requires
        0 <= i < s.len(),
        s.no_duplicates(),
    ensures
        forall|c: u64| seen(s, i + 1, c) <==> (seen(s, i, c) || c == s[i]),
        !seen(s, i, s[i]),
{
    assert forall|c: u64| seen(s, i + 1, c) <==> (seen(s, i, c) || c == s[i]) by {
        if seen(s, i + 1, c) {
            let j = choose|j: int| 0 <= j < i + 1 && #[trigger] s[j] == c;
            if j < i {
                assert(seen(s, i, c));
            }
        }
        if c == s[i] {
            assert(s[i] == c);
        }
    }
    if seen(s, i, s[i]) {
        let j = choose|j: int| 0 <= j < i && #[trigger] s[j] == s[i];
        assert(s[j] == s[i]);
    }
}

/// The outcome of a join.
pub enum JoinOutcome {
    /// The user joined; these are the channel's messages as they stood.
    Joined(Vec<WsMessage>),
    /// The user was already in the channel.
    Duplicate,
}

/// The users of every channel and the history of every channel: the state
/// of the server's event loop.
pub struct EventHub {
    ch_db: HashMap<u64, Vec<u64>>,
    msg_db: HashMap<u64, ChannelInfo>,
    limit: u32,
}

impl View for EventHub {
    type V = HubView;

    closed spec fn view(&self) -> HubView {
        HubView {
            users: users_map(self.ch_db@),
            histories: hist_map(self.msg_db@),
            limit: self.limit as nat,
        }
    }
}

/// The users of each channel, as sequences.
spec fn users_map(m: Map<u64, Vec<u64>>) -> Map<u64, Seq<u64>> {
    Map::new(|k: u64| m.contains_key(k), |k: u64| m[k]@)
}

/// The history of each channel, as views.
spec fn hist_map(m: Map<u64, ChannelInfo>) -> Map<u64, HistoryView> {
    Map::new(|k: u64| m.contains_key(k), |k: u64| info_view(m[k]))
}

proof fn lemma_users_map(m: Map<u64, Vec<u64>>, k: u64, x: Vec<u64>)
    ensures
        users_map(m.insert(k, x)) == users_map(m).insert(k, x@),
        users_map(m.remove(k)) == users_map(m).remove(k),
        users_map(m).dom() == m.dom(),
{
    assert(users_map(m.insert(k, x)) =~= users_map(m).insert(k, x@));
    lemma_users_map_dom(m);
    lemma_users_map_remove(m, k);
}

proof fn lemma_users_map_remove(m: Map<u64, Vec<u64>>, k: u64)
    ensures
        users_map(m.remove(k)) == users_map(m).remove(k),
{
    assert(users_map(m.remove(k)) =~= users_map(m).remove(k));
}

proof fn lemma_users_map_dom(m: Map<u64, Vec<u64>>)
    ensures
        users_map(m).dom() == m.dom(),
{
    assert(users_map(m).dom() =~= m.dom());
}

proof fn lemma_hist_map(m: Map<u64, ChannelInfo>, k: u64, x: ChannelInfo)
    ensures
        hist_map(m.insert(k, x)) == hist_map(m).insert(k, info_view(x)),
        hist_map(m.remove(k)) == hist_map(m).remove(k),
        hist_map(m).dom() == m.dom(),
{
    assert(hist_map(m.insert(k, x)) =~= hist_map(m).insert(k, info_view(x)));
    lemma_hist_map_dom(m);
    lemma_hist_map_remove(m, k);
}

proof fn lemma_hist_map_remove(m: Map<u64, ChannelInfo>, k: u64)
    ensures
        hist_map(m.remove(k)) == hist_map(m).remove(k),
{
    assert(hist_map(m.remove(k)) =~= hist_map(m).remove(k));
}

proof fn lemma_hist_map_dom(m: Map<u64, ChannelInfo>)
    ensures
        hist_map(m).dom() == m.dom(),
{
    assert(hist_map(m).dom() =~= m.dom());
}

/// Copies the messages of a history.
fn copy_messages(q: &VecDeque<WsMessage>) -> (r: Vec<WsMessage>)
    ensures
        msgs_view(r@) == msgs_view(q@),
{
    let mut r: Vec<WsMessage> = Vec::new();
    let n = q.len();
    let mut i: usize = 0;
    while i < n
        invariant
            i <= n,
            n == q@.len(),
            msgs_view(r@) == msgs_view(q@.take(i as int)),
        decreases n - i,
    {
        let c = q[i].copy();
        let ghost prev = r@;
        r.push(c);
        proof {
            assert(r@ == prev.push(c));
            assert(q@.take(i + 1) =~= q@.take(i as int).push(q@[i as int]));
            assert(msgs_view(prev.push(c)) =~= msgs_view(prev).push(msg_view(c)));
            assert(msgs_view(q@.take(i as int).push(q@[i as int])) =~= msgs_view(q@.take(i as int)).push(msg_view(q@[i as int])));
            assert(msgs_view(r@) =~= msgs_view(q@.take(i + 1)));
        }
        i = i + 1;
    }
    assert(q@.take(n as int) =~= q@);
    r
}

impl EventHub {
    /// An empty hub with history limit `limit`.
    pub fn new(limit: u32) -> (r: EventHub)
        ensures
            r@.users == Map::<u64, Seq<u64>>::empty(),
            r@.histories == Map::<u64, HistoryView>::empty(),
            r@.limit == limit,
            hub_ok(r@),
    {
        let r = EventHub { ch_db: HashMap::new(), msg_db: HashMap::new(), limit };
        assert(r@.users =~= Map::<u64, Seq<u64>>::empty());
        assert(r@.histories =~= Map::<u64, HistoryView>::empty());
        r
    }

    /// User `h` joins channel `ch` with first message `msg` at time `now`.
    pub fn join(&mut self, h: u64, ch: u64, msg: WsMessage, now: u128) -> (r: JoinOutcome)
        requires
            hub_ok(old(self)@),
            msg.data@.len() <= MAX_MESSAGE_SIZE,
        ensures
            hub_ok(final(self)@),
            final(self)@ == spec_join(old(self)@, h, ch, msg_view(msg), now).0,
            (match r {
                JoinOutcome::Joined(hist) => Some(msgs_view(hist@)),
                JoinOutcome::Duplicate => None,
            }) == spec_join(old(self)@, h, ch, msg_view(msg), now).1,
    {
        let ghost v = self@;
        let ghost m = msg_view(msg);
        let ghost us = users_of(v, ch);
        let ghost m0 = self.ch_db@;
        if let Some(users) = self.ch_db.get(&ch) {
            if contains_user(users, h) {
                return JoinOutcome::Duplicate;
            }
        }
        let mut users = match self.ch_db.remove(&ch) {
            Some(u) => u,
            None => Vec::new(),
        };
        assert(users@ == us);
        users.push(h);
        proof {
            lemma_users_map(m0, ch, users);
            lemma_users_map(m0.remove(ch), ch, users);
            assert(m0.remove(ch).insert(ch, users) =~= m0.insert(ch, users));
        }
        self.ch_db.insert(ch, users);
        let ghost h0 = self.msg_db@;
        let mut info = match self.msg_db.remove(&ch) {
            Some(i) => i,
            None => ChannelInfo { messages: VecDeque::new(), last_activity: now, history_bytes: 0 },
        };
        let ghost hist = history_of(v, ch, now);
        assert(info_view(info) == hist);
        let history = copy_messages(&info.messages);
        proof {
            lemma_add_message_bounded_any(hist.0, v.limit, m);
            lemma_add_message_bytes_exact(hist.0, v.limit, m);
        }
        add_message(msg, self.limit, &mut info.messages, &mut info.history_bytes);
        info.last_activity = now;
        proof {
            lemma_hist_map(h0, ch, info);
            lemma_hist_map(h0.remove(ch), ch, info);
            assert(h0.remove(ch).insert(ch, info) =~= h0.insert(ch, info));
        }
        self.msg_db.insert(ch, info);
        proof {
            let nv = spec_join(v, h, ch, m, now).0;
            assert(self@.users =~= nv.users);
            assert(self@.histories =~= nv.histories);
            assert forall|c: u64| #[trigger] self@.users.contains_key(c) implies self@.users[c].len()
                > 0 && self@.users[c].no_duplicates() by {
                if c == ch {
                    assert(us.no_duplicates());
                    assert(self@.users[c] == us.push(h));
                    assert forall|a: int, b: int| 0 <= a < b < us.push(h).len() implies us.push(h)[a]
                        != us.push(h)[b] by {
                        if b == us.len() {
                            assert(us[a] != h);
                        }
                    }
                }
            }
        }
        JoinOutcome::Joined(history)
    }

    /// User `h` sends `msg` to channel `ch` at time `now`; gives the users to
    /// forward it to, or `None` when the channel has no users.
    pub fn send(&mut self, h: u64, ch: u64, msg: WsMessage, now: u128) -> (r: Option<Vec<u64>>)
        requires
            hub_ok(old(self)@),
            msg.data@.len() <= MAX_MESSAGE_SIZE,
        ensures
            hub_ok(final(self)@),
            final(self)@ == spec_send(old(self)@, h, ch, msg_view(msg), now).0,
            (match r {
                Some(rs) => Some(rs@),
                None => None,
            }) == spec_send(old(self)@, h, ch, msg_view(msg), now).1,
    {
        let ghost v = self@;
        let ghost m = msg_view(msg);
        let recipients = match self.ch_db.get(&ch) {
            Some(users) => users_without(users, h),
            None => {
                return None;
            },
        };
        let ghost h0 = self.msg_db@;
        if let Some(mut info) = self.msg_db.remove(&ch) {
            let ghost hist = v.histories[ch];
            proof {
                lemma_hist_map_dom(h0);
                assert(v.histories.contains_key(ch));
            }
            assert(info_view(info) == hist);
            proof {
                lemma_add_message_bounded_any(hist.0, v.limit, m);
                lemma_add_message_bytes_exact(hist.0, v.limit, m);
            }
            add_message(msg, self.limit, &mut info.messages, &mut info.history_bytes);
            info.last_activity = now;
            proof {
                lemma_hist_map(h0, ch, info);
                lemma_hist_map(h0.remove(ch), ch, info);
                assert(h0.remove(ch).insert(ch, info) =~= h0.insert(ch, info));
            }
            self.msg_db.insert(ch, info);
            proof {
                let nv = spec_send(v, h, ch, m, now).0;
                assert(self@.histories =~= nv.histories);
            }
        } else {
            assert(self@.histories =~= v.histories);
        }
        Some(recipients)
    }

    /// User `h` leaves channel `ch`.
    pub fn leave(&mut self, h: u64, ch: u64)
        requires
            hub_ok(old(self)@),
        ensures
            hub_ok(final(self)@),
            final(self)@ == spec_leave(old(self)@, h, ch),
    {
        let ghost v = self@;
        let ghost m0 = self.ch_db@;
        if let Some(users) = self.ch_db.remove(&ch) {
            let rest = users_without(&users, h);
            proof {
                assert(v.users.contains_key(ch));
                assert(users@ == v.users[ch]);
                lemma_without_no_dups(users@, h);
                lemma_users_map(m0, ch, rest);
                lemma_users_map(m0.remove(ch), ch, rest);
                assert(m0.remove(ch).insert(ch, rest) =~= m0.insert(ch, rest));
            }
            if rest.len() != 0 {
                self.ch_db.insert(ch, rest);
            }
            proof {
                let nv = spec_leave(v, h, ch);
                assert(self@.users =~= nv.users);
            }
        } else {
            assert(self@.users =~= v.users);
        }
        assert(self@.histories =~= spec_leave(v, h, ch).histories);
    }

    /// Drops the histories that are stale at `now`; gives how many remain.
    pub fn cleanup(&mut self, now: u128) -> (r: usize)
        requires
            hub_ok(old(self)@),
        ensures
            hub_ok(final(self)@),
            final(self)@ == (HubView {
                histories: spec_cleanup(old(self)@.histories, now),
                ..old(self)@
            }),
            r == spec_cleanup(old(self)@.histories, now).dom().len(),
    {
        let ghost v = self@;
        proof {
            lemma_hist_map_dom(self.msg_db@);
        }
        let ids = channel_ids(&self.msg_db);
        let n = ids.len();
        for i in 0..n
            invariant
                n == ids@.len(),
                ids@.to_set() == v.histories.dom(),
                ids@.no_duplicates(),
                self@.users == v.users,
                self@.limit == v.limit,
                self@.histories == Map::new(
                    |c: u64| v.histories.contains_key(c) && !(seen(ids@, i as int, c) && stale(v.histories[c].2, now)),
                    |c: u64| v.histories[c],
                ),
        {
            let id = ids[i];
            let ghost h0 = self.msg_db@;
            proof {
                assert(ids@.to_set().contains(id));
                assert(v.histories.contains_key(id));
                lemma_seen_step(ids@, i as int);
                assert(self@.histories.contains_key(id));
                lemma_hist_map_dom(h0);
                lemma_hist_map_remove(h0, id);
                assert(h0.contains_key(id));
                assert(self@.histories[id] == v.histories[id]);
                assert(hist_map(h0)[id] == info_view(h0[id]));
                assert(info_view(h0[id]) == v.histories[id]);
            }
            let mut drop = false;
            match self.msg_db.get(&id) {
                Some(info) => {
                    if now >= info.last_activity {
                        let elapsed = now - info.last_activity;
                        if elapsed > CHANNEL_CLEANUP_NANOS {
                            drop = true;
                        }
                    }
                },
                None => {},
            }
            assert(drop == stale(v.histories[id].2, now));
            if drop {
                self.msg_db.remove(&id);
            }
            assert(self@.histories =~= Map::new(
                |c: u64| v.histories.contains_key(c) && !(seen(ids@, i + 1, c) && stale(v.histories[c].2, now)),
                |c: u64| v.histories[c],
            ));
        }
        proof {
            assert forall|c: u64| v.histories.contains_key(c) implies seen(ids@, n as int, c) by {
                assert(ids@.to_set().contains(c));
                let j = choose|j: int| 0 <= j < ids@.len() && ids@[j] == c;
                assert(ids@[j] == c);
            }
            assert(self@.histories =~= spec_cleanup(v.histories, now));
            lemma_hist_map_dom(self.msg_db@);
        }
        self.msg_db.len()
    }

    /// The number of channels with users.
    pub fn channel_count(&self) -> (r: usize)
        ensures
            r == self@.users.dom().len(),
    {
        proof {
            lemma_users_map_dom(self.ch_db@);
        }
        self.ch_db.len()
    }

    /// The number of channels with a history.
    pub fn history_count(&self) -> (r: usize)
        ensures
            r == self@.histories.dom().len(),
    {
        proof {
            lemma_hist_map_dom(self.msg_db@);
        }
        self.msg_db.len()
    }
}

/// Adding a message to a history that the hub's invariant allows keeps it so.
proof fn lemma_add_message_bounded_any(q: Seq<(MsgKind, Seq<u8>)>, limit: nat, m: (MsgKind, Seq<u8>))
    requires
        m.1.len() <= MAX_MESSAGE_SIZE,
        limit >= 1 ==> q.len() <= limit,
    ensures
        limit >= 1 ==> spec_add_message(q, history_bytes(q), limit, m).0.len() <= limit,
        spec_add_message(q, history_bytes(q), limit, m).1 <= MESSAGE_HISTORY_MAX_BYTES,
{
    lemma_evict_exact(q, history_bytes(q), m.1.len());
    lemma_evict_shorter(q, history_bytes(q), m.1.len());
    let (q1, c1) = evict_for_bytes(q, history_bytes(q), m.1.len());
    if q1.len() == 0 {
        assert(history_bytes(q1) == 0);
    }
    if q1.len() == limit && q1.len() > 0 {
        assert(history_bytes(q1) == q1[0].1.len() + history_bytes(q1.drop_first()));
    }
}

// ---------------------------------------------------------------------------
// Laws of the hub
// ---------------------------------------------------------------------------

/// Channel `c` holds the same users and the same history in `a` as in `b`.
pub open spec fn same_channel(a: HubView, b: HubView, c: u64) -> bool {
    &&& users_of(a, c) == users_of(b, c)
    &&& a.histories.contains_key(c) == b.histories.contains_key(c)
    &&& a.histories.contains_key(c) ==> a.histories[c] == b.histories[c]
}

/// Channels are independent: joining, sending to or leaving channel `ch`
/// leaves the users and the history of every other channel as they were.
pub proof fn lemma_channels_independent(
    v: HubView,
    h: u64,
    ch: u64,
    m: (MsgKind, Seq<u8>),
    now: u128,
    c: u64,
)
    requires
        c != ch,
    ensures
        same_channel(spec_join(v, h, ch, m, now).0, v, c),
        same_channel(spec_send(v, h, ch, m, now).0, v, c),
        same_channel(spec_leave(v, h, ch), v, c),
{
}

/// A message sent to a channel with users goes to exactly its other users,
/// each once: the sender gets no copy of its own message.
pub proof fn lemma_send_reaches_others(
    v: HubView,
    h: u64,
    ch: u64,
    m: (MsgKind, Seq<u8>),
    now: u128,
    u: u64,
)
    requires
        hub_ok(v),
        v.users.contains_key(ch),
    ensures
        spec_send(v, h, ch, m, now).1 is Some,
        spec_send(v, h, ch, m, now).1->0.contains(u) <==> (users_of(v, ch).contains(u) && u != h),
        spec_send(v, h, ch, m, now).1->0.no_duplicates(),
{
    lemma_without_no_dups(v.users[ch], h);
    lemma_without_contains(v.users[ch], h, u);
}

/// After a join the user is in the channel, whether it joined now or was
/// there before; after leaving it is not.
pub proof fn lemma_join_leave_membership(v: HubView, h: u64, ch: u64, m: (MsgKind, Seq<u8>), now: u128)
    ensures
        users_of(spec_join(v, h, ch, m, now).0, ch).contains(h),
        !users_of(spec_leave(v, h, ch), ch).contains(h),
{
    let us = users_of(v, ch);
    if !us.contains(h) {
        assert(us.push(h)[us.len() as int] == h);
    }
    if v.users.contains_key(ch) {
        lemma_without_contains(v.users[ch], h, h);
    }
}

/// A user's first message enters the channel's history, and so does every
/// later message sent to a channel that keeps one: with a history limit of
/// at least 1, the history ends with that message.
pub proof fn lemma_message_recorded(v: HubView, h: u64, ch: u64, m: (MsgKind, Seq<u8>), now: u128)
    requires
        hub_ok(v),
        v.limit >= 1,
        m.1.len() <= MAX_MESSAGE_SIZE,
    ensures
        !users_of(v, ch).contains(h) ==> spec_join(v, h, ch, m, now).0.histories[ch].0.last() == m,
        v.users.contains_key(ch) && v.histories.contains_key(ch)
            ==> spec_send(v, h, ch, m, now).0.histories[ch].0.last() == m,
{
    let hist = history_of(v, ch, now);
    if v.histories.contains_key(ch) {
        assert(hist.1 == history_bytes(hist.0));
    } else {
        assert(history_bytes(hist.0) == 0);
    }
    lemma_add_message_bounded(hist.0, v.limit, m);
}

/// The history is replayed to newcomers: a user who joins a channel after a
/// message was sent to it receives a history that ends with that message.
pub proof fn lemma_history_replayed(
    v: HubView,
    h1: u64,
    h2: u64,
    ch: u64,
    m: (MsgKind, Seq<u8>),
    m2: (MsgKind, Seq<u8>),
    now: u128,
    now2: u128,
)
    requires
        hub_ok(v),
        v.limit >= 1,
        v.users.contains_key(ch),
        v.histories.contains_key(ch),
        !users_of(v, ch).contains(h2),
        m.1.len() <= MAX_MESSAGE_SIZE,
    ensures
        spec_join(spec_send(v, h1, ch, m, now).0, h2, ch, m2, now2).1 is Some,
        spec_join(spec_send(v, h1, ch, m, now).0, h2, ch, m2, now2).1->0.last() == m,
{
    lemma_message_recorded(v, h1, ch, m, now);
}

/// Sending keeps a channel alive: after a message is sent at time `now` to a
/// channel with users and a history, that history was last active at `now`,
/// holds the message as its newest entry, and a cleanup at any time `t` from
/// `now` to `now` plus the cleanup age keeps it whole.
pub proof fn lemma_send_keeps_history_alive(
    v: HubView,
    h: u64,
    ch: u64,
    m: (MsgKind, Seq<u8>),
    now: u128,
    t: u128,
)
    requires
        hub_ok(v),
        v.users.contains_key(ch),
        v.histories.contains_key(ch),
        m.1.len() <= MAX_MESSAGE_SIZE,
        now <= t <= now + CHANNEL_CLEANUP_NANOS,
    ensures
        spec_send(v, h, ch, m, now).0.histories.contains_key(ch),
        spec_send(v, h, ch, m, now).0.histories[ch].2 == now,
        spec_cleanup(spec_send(v, h, ch, m, now).0.histories, t).contains_key(ch),
        spec_cleanup(spec_send(v, h, ch, m, now).0.histories, t)[ch] == spec_send(
            v,
            h,
            ch,
            m,
            now,
        ).0.histories[ch],
{
}

/// Joining keeps a channel alive: after a user joins a channel at time
/// `now`, its history was last active at `now`, and a cleanup at any time `t`
/// from `now` to `now` plus the cleanup age keeps it.
pub proof fn lemma_join_keeps_history_alive(
    v: HubView,
    h: u64,
    ch: u64,
    m: (MsgKind, Seq<u8>),
    now: u128,
    t: u128,
)
    requires
        !users_of(v, ch).contains(h),
        now <= t <= now + CHANNEL_CLEANUP_NANOS,
    ensures
        spec_join(v, h, ch, m, now).0.histories[ch].2 == now,
        spec_cleanup(spec_join(v, h, ch, m, now).0.histories, t).contains_key(ch),
{
}

/// A cleanup at `t` drops exactly the histories idle for more than the
/// cleanup age: a history last active at or after `t` minus that age stays
/// as it was, an older one leaves, and no history appears.
pub proof fn lemma_cleanup_drops_only_idle(hs: Map<u64, HistoryView>, t: u128, c: u64)
    ensures
        hs.contains_key(c) && hs[c].2 <= t && t - hs[c].2 <= CHANNEL_CLEANUP_NANOS ==> spec_cleanup(
            hs,
            t,
        ).contains_key(c) && spec_cleanup(hs, t)[c] == hs[c],
        hs.contains_key(c) && hs[c].2 <= t && t - hs[c].2 > CHANNEL_CLEANUP_NANOS ==> !spec_cleanup(
            hs,
            t,
        ).contains_key(c),
        spec_cleanup(hs, t).contains_key(c) ==> hs.contains_key(c) && spec_cleanup(hs, t)[c] == hs[c],
{
}

} // verus!
