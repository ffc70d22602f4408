//! The Mles value triplet (uid, channel, message) and the resynchronization
//! message that packs a channel's history into one message.
use vstd::prelude::*;

verus! {

/// Copies a byte vector.
pub fn copy_bytes(v: &Vec<u8>) -> (r: Vec<u8>)
    ensures
        r@ == v@,
{
    let r = v.clone();
    assert(r@ =~= v@);
    r
}

/// The Mles value triplet (uid, channel, message).
pub struct Msg {
    uid: String,
    channel: String,
    message: Vec<u8>,
}

/// What a `Msg` holds.
pub struct MsgView {
    pub uid: Seq<char>,
    pub channel: Seq<char>,
    pub message: Seq<u8>,
}

impl View for Msg {
    type V = MsgView;

    closed spec fn view(&self) -> MsgView {
        MsgView { uid: self.uid@, channel: self.channel@, message: self.message@ }
    }
}

impl Msg {
    /// Creates a message from its triplet.
    pub fn new(uid: String, channel: String, message: Vec<u8>) -> (r: Msg)
        ensures
            r@ == (MsgView { uid: uid@, channel: channel@, message: message@ }),
    {
        Msg { uid: uid, channel: channel, message: message }
    }

    /// The message with its uid replaced.
    pub fn set_uid(self, uid: String) -> (r: Msg)
        ensures
            r@ == (MsgView { uid: uid@, ..self@ }),
    {
        let mut m = self;
        m.uid = uid;
        m
    }

    /// The message with its channel replaced.
    pub fn set_channel(self, channel: String) -> (r: Msg)
        ensures
            r@ == (MsgView { channel: channel@, ..self@ }),
    {
        let mut m = self;
        m.channel = channel;
        m
    }

    /// The message with its payload replaced.
    pub fn set_message(self, message: Vec<u8>) -> (r: Msg)
        ensures
            r@ == (MsgView { message: message@, ..self@ }),
    {
        let mut m = self;
        m.message = message;
        m
    }

    /// The uid.
    pub fn get_uid(&self) -> (r: &String)
        ensures
            r@ == self@.uid,
    {
        &self.uid
    }

    /// The channel.
    pub fn get_channel(&self) -> (r: &String)
        ensures
            r@ == self@.channel,
    {
        &self.channel
    }

    /// The payload.
    pub fn get_message(&self) -> (r: &Vec<u8>)
        ensures
            r@ == self@.message,
    {
        &self.message
    }

    /// The length of the payload.
    pub fn get_message_len(&self) -> (r: usize)
        ensures
            r == self@.message.len(),
    {
        self.message.len()
    }
}

/// One packed message of a resynchronization.
pub struct MsgVec {
    messages: Vec<u8>,
}

impl View for MsgVec {
    type V = Seq<u8>;

    closed spec fn view(&self) -> Seq<u8> {
        self.messages@
    }
}

impl MsgVec {
    /// Packs a copy of `messages`.
    pub fn new(messages: &Vec<u8>) -> (r: MsgVec)
        ensures
            r@ == messages@,
    {
        MsgVec { messages: copy_bytes(messages) }
    }

    /// The packed bytes.
    pub fn get(&self) -> (r: &Vec<u8>)
        ensures
            r@ == self@,
    {
        &self.messages
    }
}

/// A resynchronization message: a channel's history packed into one message,
/// which peers send to a root server on their first connection.
pub struct ResyncMsg {
    resync_message: Vec<MsgVec>,
}

impl View for ResyncMsg {
    type V = Seq<Seq<u8>>;

    closed spec fn view(&self) -> Seq<Seq<u8>> {
        self.resync_message@.map_values(|m: MsgVec| m@)
    }
}

impl ResyncMsg {
    /// Packs the encoded messages `messages`, in order.
    pub fn new(messages: &Vec<Vec<u8>>) -> (r: ResyncMsg)
        ensures
            r@ == messages@.map_values(|m: Vec<u8>| m@),
    {
        let mut rmsg = ResyncMsg { resync_message: Vec::new() };
        let n = messages.len();
        for i in 0..n
            invariant
                n == messages@.len(),
                rmsg@ == messages@.subrange(0, i as int).map_values(|m: Vec<u8>| m@),
        {
            let ghost prev = rmsg.resync_message@;
            assert(prev.map_values(|m: MsgVec| m@).len() == i);
            let mv = MsgVec::new(&messages[i]);
            rmsg.resync_message.push(mv);
            assert(rmsg.resync_message@ == prev.push(mv));
            let ghost want = messages@.subrange(0, i + 1).map_values(|m: Vec<u8>| m@);
            assert(rmsg@.len() == want.len());
            assert forall|j: int| 0 <= j < want.len() implies rmsg@[j] == want[j] by {
                if j < i {
                    assert(prev[j]@ == messages@.subrange(0, i as int).map_values(|m: Vec<u8>| m@)[j]);
                }
            }
            assert(rmsg@ =~= want);
        }
        assert(messages@.subrange(0, n as int) =~= messages@);
        rmsg
    }

    /// The number of packed messages.
    pub fn len(&self) -> (r: usize)
        ensures
            r == self@.len(),
    {
        self.resync_message.len()
    }

    /// Copies of the packed messages, in order.
    pub fn get_messages(&self) -> (r: Vec<Vec<u8>>)
        ensures
            r@.map_values(|m: Vec<u8>| m@) == self@,
    {
        let mut messages: Vec<Vec<u8>> = Vec::new();
        let n = self.resync_message.len();
        for i in 0..n
            invariant
                n == self@.len(),
                messages@.map_values(|m: Vec<u8>| m@) == self@.subrange(0, i as int),
        {
            let msg = self.resync_message[i].get();
            let ghost prev = messages@;
            assert(prev.map_values(|m: Vec<u8>| m@).len() == i);
            messages.push(copy_bytes(msg));
            let ghost want = self@.subrange(0, i + 1);
            let ghost got = messages@.map_values(|m: Vec<u8>| m@);
            assert(got.len() == want.len());
            assert forall|j: int| 0 <= j < want.len() implies got[j] == want[j] by {
                if j < i {
                    assert(prev.map_values(|m: Vec<u8>| m@)[j] == self@.subrange(0, i as int)[j]);
                }
            }
            assert(got =~= want);
        }
        assert(self@.subrange(0, n as int) =~= self@);
        messages
    }
}

} // verus!
