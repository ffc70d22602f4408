//! The per-channel databases of the Mles server and of its peer connection:
//! the connected users of a channel and its bounded message history.
use std::collections::HashMap;
use vstd::prelude::*;

verus! {

broadcast use vstd::std_specs::hash::group_hash_axioms;

/// The history after adding `m` to `h` under the history limit `limit`: with
/// limit 0 nothing is kept; a full history drops its oldest message.
pub open spec fn spec_add_history<M>(h: Seq<M>, limit: nat, m: M) -> Seq<M> {
    if limit == 0 {
        h
    } else if h.len() == limit {
        h.drop_first().push(m)
    } else {
        h.push(m)
    }
}

/// Adds `m` to the history `messages` under the history limit `limit`.
pub fn add_to_history<M>(messages: &mut Vec<M>, limit: usize, m: M)
    ensures
        final(messages)@ == spec_add_history(old(messages)@, limit as nat, m),
{
    if limit == 0 {
        return;
    }
    if messages.len() == limit {
        messages.remove(0);
    }
    messages.push(m);
    assert(final(messages)@ =~= spec_add_history(old(messages)@, limit as nat, m));
}

/// A history that holds at most `limit` messages keeps doing so, and holds
/// the newest message last, after any message is added.
pub proof fn lemma_history_bounded<M>(h: Seq<M>, limit: nat, m: M)
    requires
        h.len() <= limit,
    ensures
        spec_add_history(h, limit, m).len() <= limit,
        limit > 0 ==> spec_add_history(h, limit, m).last() == m,
        limit > 0 ==> spec_add_history(h, limit, m).drop_last() =~= (if h.len() == limit {
            h.drop_first()
        } else {
            h
        }),
{
}

/// The database of one channel of the server: its connections by connection
/// id, its message history, its peer connection and the senders of all its
/// connections.
pub struct MlesDb<T, P> {
    channels: Option<HashMap<u64, T>>,
    messages: Vec<Vec<u8>>,
    peer_tx: Option<P>,
    history_limit: usize,
    tx_db: Vec<T>,
}

impl<T, P> MlesDb<T, P> {
    /// The connections of the channel, once one was added.
    pub closed spec fn spec_channels(&self) -> Option<Map<u64, T>> {
        match self.channels {
            Some(c) => Some(c@),
            None => None,
        }
    }

    /// The message history, oldest first.
    pub closed spec fn spec_messages(&self) -> Seq<Seq<u8>> {
        self.messages@.map_values(|m: Vec<u8>| m@)
    }

    /// The history limit.
    pub closed spec fn spec_history_limit(&self) -> nat {
        self.history_limit as nat
    }

    /// The peer connection's sender, when one is set.
    pub closed spec fn spec_peer_tx(&self) -> Option<P> {
        self.peer_tx
    }

    /// The senders of all connections of the channel.
    pub closed spec fn spec_tx_db(&self) -> Seq<T> {
        self.tx_db@
    }

    /// The history never holds more messages than the limit.
    pub closed spec fn wf(&self) -> bool {
        self.messages@.len() <= self.history_limit
    }

    /// A well-formed database's history is within its limit.
    pub proof fn lemma_wf_history(&self)
        requires
            self.wf(),
        ensures
            self.spec_messages().len() <= self.spec_history_limit(),
    {
    }

    /// A database has finitely many connections.
    pub proof fn lemma_channels_finite(&self)
        ensures
            self.spec_channels() matches Some(m) ==> m.dom().finite(),
    {
        match self.channels {
            Some(c) => {
                vstd::std_specs::hash::axiom_hashmap_view_finite_dom(c);
            },
            None => {},
        }
    }

    /// A new database with history limit `hlim`.
    pub fn new(hlim: usize) -> (r: Self)
        ensures
            r.wf(),
            r.spec_channels() is None,
            r.spec_messages() == Seq::<Seq<u8>>::empty(),
            r.spec_peer_tx() is None,
            r.spec_history_limit() == hlim,
            r.spec_tx_db() == Seq::<T>::empty(),
    {
        let r = MlesDb {
            channels: None,
            messages: Vec::with_capacity(hlim),
            peer_tx: None,
            history_limit: hlim,
            tx_db: Vec::new(),
        };
        assert(r.spec_messages() =~= Seq::<Seq<u8>>::empty());
        r
    }

    /// The connections of the channel.
    pub fn get_channels(&self) -> (r: Option<&HashMap<u64, T>>)
        ensures
            (match r {
                Some(c) => Some(c@),
                None => None,
            }) == self.spec_channels(),
    {
        self.channels.as_ref()
    }

    /// The message history.
    pub fn get_messages(&self) -> (r: &Vec<Vec<u8>>)
        ensures
            r@.map_values(|m: Vec<u8>| m@) == self.spec_messages(),
    {
        &self.messages
    }

    /// The number of messages in the history.
    pub fn get_messages_len(&self) -> (r: usize)
        ensures
            r == self.spec_messages().len(),
    {
        self.messages.len()
    }

    /// The senders of all connections.
    pub fn get_tx_db(&self) -> (r: &Vec<T>)
        ensures
            r@ == self.spec_tx_db(),
    {
        &self.tx_db
    }

    /// Forgets the senders of all connections.
    pub fn clear_tx_db(&mut self)
        ensures
            final(self).spec_tx_db() == Seq::<T>::empty(),
            final(self).spec_channels() == old(self).spec_channels(),
            final(self).spec_messages() == old(self).spec_messages(),
            final(self).spec_peer_tx() == old(self).spec_peer_tx(),
            final(self).spec_history_limit() == old(self).spec_history_limit(),
            old(self).wf() ==> final(self).wf(),
    {
        self.tx_db = Vec::new();
    }

    /// Records the sender of a connection.
    pub fn add_tx_db(&mut self, tx: T)
        ensures
            final(self).spec_tx_db() == old(self).spec_tx_db().push(tx),
            final(self).spec_channels() == old(self).spec_channels(),
            final(self).spec_messages() == old(self).spec_messages(),
            final(self).spec_peer_tx() == old(self).spec_peer_tx(),
            final(self).spec_history_limit() == old(self).spec_history_limit(),
            old(self).wf() ==> final(self).wf(),
    {
        self.tx_db.push(tx);
    }

    /// The history limit.
    pub fn get_history_limit(&self) -> (r: usize)
        ensures
            r == self.spec_history_limit(),
    {
        self.history_limit
    }

    /// The peer connection's sender.
    pub fn get_peer_tx(&self) -> (r: Option<&P>)
        ensures
            (match r {
                Some(p) => Some(*p),
                None => None,
            }) == self.spec_peer_tx(),
    {
        self.peer_tx.as_ref()
    }

    /// Adds a connection under connection id `cid`, replacing any with that id.
    pub fn add_channel(&mut self, cid: u64, sender: T)
        ensures
            final(self).spec_channels() == Some(
                (match old(self).spec_channels() {
                    Some(c) => c,
                    None => Map::<u64, T>::empty(),
                }).insert(cid, sender),
            ),
            final(self).spec_messages() == old(self).spec_messages(),
            final(self).spec_peer_tx() == old(self).spec_peer_tx(),
            final(self).spec_history_limit() == old(self).spec_history_limit(),
            final(self).spec_tx_db() == old(self).spec_tx_db(),
            old(self).wf() ==> final(self).wf(),
    {
        let mut channels = match self.channels.take() {
            Some(c) => c,
            None => HashMap::new(),
        };
        channels.insert(cid, sender);
        self.channels = Some(channels);
    }

    /// Whether a connection with id `cid` is in the channel.
    pub fn check_for_duplicate_cid(&self, cid: u32) -> (r: bool)
        ensures
            r == (match self.spec_channels() {
                Some(c) => c.contains_key(cid as u64),
                None => false,
            }),
    {
        if let Some(channels) = &self.channels {
            if channels.contains_key(&(cid as u64)) {
                return true;
            }
        }
        false
    }

    /// Removes the connection with id `cid`.
    pub fn rem_channel(&mut self, cid: u64)
        ensures
            final(self).spec_channels() == (match old(self).spec_channels() {
                Some(c) => Some(c.remove(cid)),
                None => None,
            }),
            final(self).spec_messages() == old(self).spec_messages(),
            final(self).spec_peer_tx() == old(self).spec_peer_tx(),
            final(self).spec_history_limit() == old(self).spec_history_limit(),
            final(self).spec_tx_db() == old(self).spec_tx_db(),
            old(self).wf() ==> final(self).wf(),
    {
        if let Some(channels) = &mut self.channels {
            channels.remove(&cid);
        }
    }

    /// The number of connections.
    pub fn get_channels_len(&mut self) -> (r: usize)
        ensures
            *final(self) == *old(self),
            r == (match old(self).spec_channels() {
                Some(c) => c.len(),
                None => 0,
            }),
    {
        if let Some(channels) = &self.channels {
            return channels.len();
        }
        0
    }

    /// Adds a message to the history under the history limit.
    pub fn add_message(&mut self, message: Vec<u8>)
        ensures
            final(self).spec_messages() == spec_add_history(
                old(self).spec_messages(),
                old(self).spec_history_limit(),
                message@,
            ),
            final(self).spec_channels() == old(self).spec_channels(),
            final(self).spec_peer_tx() == old(self).spec_peer_tx(),
            final(self).spec_history_limit() == old(self).spec_history_limit(),
            final(self).spec_tx_db() == old(self).spec_tx_db(),
            old(self).wf() ==> final(self).wf(),
    {
        let ghost m = message@;
        let ghost before = self.messages@;
        add_to_history(&mut self.messages, self.history_limit, message);
        proof {
            let lim = self.history_limit as nat;
            if lim != 0 {
                if before.len() == lim {
                    assert(self.messages@.map_values(|v: Vec<u8>| v@) =~= before.map_values(
                        |v: Vec<u8>| v@,
                    ).drop_first().push(m));
                } else {
                    assert(self.messages@.map_values(|v: Vec<u8>| v@) =~= before.map_values(
                        |v: Vec<u8>| v@,
                    ).push(m));
                }
            } else {
                assert(self.messages@ == before);
            }
        }
    }

    /// Sets the peer connection's sender.
    pub fn set_peer_tx(&mut self, peer_tx: P)
        ensures
            final(self).spec_peer_tx() == Some(peer_tx),
            final(self).spec_channels() == old(self).spec_channels(),
            final(self).spec_messages() == old(self).spec_messages(),
            final(self).spec_history_limit() == old(self).spec_history_limit(),
            final(self).spec_tx_db() == old(self).spec_tx_db(),
            old(self).wf() ==> final(self).wf(),
    {
        self.peer_tx = Some(peer_tx);
    }

    /// Forgets the peer connection's sender.
    pub fn rem_peer_tx(&mut self)
        ensures
            final(self).spec_peer_tx() is None,
            final(self).spec_channels() == old(self).spec_channels(),
            final(self).spec_messages() == old(self).spec_messages(),
            final(self).spec_history_limit() == old(self).spec_history_limit(),
            final(self).spec_tx_db() == old(self).spec_tx_db(),
            old(self).wf() ==> final(self).wf(),
    {
        self.peer_tx = None;
    }

    /// Whether a peer connection is set.
    pub fn check_peer(&self) -> (r: bool)
        ensures
            r == self.spec_peer_tx() is Some,
    {
        match self.peer_tx {
            Some(_) => true,
            None => false,
        }
    }
}

/// The database of a peer connection: the local connections it feeds, its
/// message history and its traffic counters.
pub struct MlesPeerDb<T> {
    channels: HashMap<u64, T>,
    messages: Vec<Vec<u8>>,
    history_limit: usize,
    rx_stats: u64,
    tx_stats: u64,
}

impl<T> MlesPeerDb<T> {
    /// The local connections by id.
    pub closed spec fn spec_channels(&self) -> Map<u64, T> {
        self.channels@
    }

    /// The message history, oldest first.
    pub closed spec fn spec_messages(&self) -> Seq<Seq<u8>> {
        self.messages@.map_values(|m: Vec<u8>| m@)
    }

    /// The history limit.
    pub closed spec fn spec_history_limit(&self) -> nat {
        self.history_limit as nat
    }

    /// The count of received messages.
    pub closed spec fn spec_rx_stats(&self) -> nat {
        self.rx_stats as nat
    }

    /// The count of sent messages.
    pub closed spec fn spec_tx_stats(&self) -> nat {
        self.tx_stats as nat
    }

    /// The history never holds more messages than the limit.
    pub closed spec fn wf(&self) -> bool {
        self.messages@.len() <= self.history_limit
    }

    /// A new peer database with history limit `hlim`.
    pub fn new(hlim: usize) -> (r: Self)
        ensures
            r.wf(),
            r.spec_channels() == Map::<u64, T>::empty(),
            r.spec_messages() == Seq::<Seq<u8>>::empty(),
            r.spec_history_limit() == hlim,
            r.spec_rx_stats() == 0,
            r.spec_tx_stats() == 0,
    {
        let r = MlesPeerDb {
            channels: HashMap::new(),
            messages: Vec::with_capacity(hlim),
            history_limit: hlim,
            rx_stats: 0,
            tx_stats: 0,
        };
        assert(r.spec_messages() =~= Seq::<Seq<u8>>::empty());
        r
    }

    /// The local connections.
    pub fn get_channels(&self) -> (r: &HashMap<u64, T>)
        ensures
            r@ == self.spec_channels(),
    {
        &self.channels
    }

    /// Adds a local connection under id `cid`, replacing any with that id.
    pub fn add_channel(&mut self, cid: u64, channel: T)
        ensures
            final(self).spec_channels() == old(self).spec_channels().insert(cid, channel),
            final(self).spec_messages() == old(self).spec_messages(),
            final(self).spec_history_limit() == old(self).spec_history_limit(),
            final(self).spec_rx_stats() == old(self).spec_rx_stats(),
            final(self).spec_tx_stats() == old(self).spec_tx_stats(),
            old(self).wf() ==> final(self).wf(),
    {
        self.channels.insert(cid, channel);
    }

    /// Removes the local connection with id `cid`.
    pub fn rem_channel(&mut self, cid: u64)
        ensures
            final(self).spec_channels() == old(self).spec_channels().remove(cid),
            final(self).spec_messages() == old(self).spec_messages(),
            final(self).spec_history_limit() == old(self).spec_history_limit(),
            final(self).spec_rx_stats() == old(self).spec_rx_stats(),
            final(self).spec_tx_stats() == old(self).spec_tx_stats(),
            old(self).wf() ==> final(self).wf(),
    {
        self.channels.remove(&cid);
    }

    /// Removes all local connections.
    pub fn clear_channels(&mut self)
        ensures
            final(self).spec_channels() == Map::<u64, T>::empty(),
            final(self).spec_messages() == old(self).spec_messages(),
            final(self).spec_history_limit() == old(self).spec_history_limit(),
            final(self).spec_rx_stats() == old(self).spec_rx_stats(),
            final(self).spec_tx_stats() == old(self).spec_tx_stats(),
            old(self).wf() ==> final(self).wf(),
    {
        self.channels = HashMap::new();
    }

    /// Resets the traffic counters.
    pub fn clear_stats(&mut self)
        ensures
            final(self).spec_rx_stats() == 0,
            final(self).spec_tx_stats() == 0,
            final(self).spec_channels() == old(self).spec_channels(),
            final(self).spec_messages() == old(self).spec_messages(),
            final(self).spec_history_limit() == old(self).spec_history_limit(),
            old(self).wf() ==> final(self).wf(),
    {
        self.rx_stats = 0;
        self.tx_stats = 0;
    }

    /// Adds a message to the history under the history limit.
    pub fn add_message(&mut self, message: Vec<u8>)
        ensures
            final(self).spec_messages() == spec_add_history(
                old(self).spec_messages(),
                old(self).spec_history_limit(),
                message@,
            ),
            final(self).spec_channels() == old(self).spec_channels(),
            final(self).spec_history_limit() == old(self).spec_history_limit(),
            final(self).spec_rx_stats() == old(self).spec_rx_stats(),
            final(self).spec_tx_stats() == old(self).spec_tx_stats(),
            old(self).wf() ==> final(self).wf(),
    {
        let ghost m = message@;
        let ghost before = self.messages@;
        add_to_history(&mut self.messages, self.history_limit, message);
        proof {
            let lim = self.history_limit as nat;
            if lim != 0 {
                if before.len() == lim {
                    assert(self.messages@.map_values(|v: Vec<u8>| v@) =~= before.map_values(
                        |v: Vec<u8>| v@,
                    ).drop_first().push(m));
                } else {
                    assert(self.messages@.map_values(|v: Vec<u8>| v@) =~= before.map_values(
                        |v: Vec<u8>| v@,
                    ).push(m));
                }
            } else {
                assert(self.messages@ == before);
            }
        }
    }

    /// The message history.
    pub fn get_messages(&self) -> (r: &Vec<Vec<u8>>)
        ensures
            r@.map_values(|m: Vec<u8>| m@) == self.spec_messages(),
    {
        &self.messages
    }

    /// The history limit.
    pub fn get_history_limit(&self) -> (r: usize)
        ensures
            r == self.spec_history_limit(),
    {
        self.history_limit
    }

    /// The number of messages in the history.
    pub fn get_messages_len(&self) -> (r: usize)
        ensures
            r == self.spec_messages().len(),
    {
        self.messages.len()
    }

    /// Counts a received message.
    pub fn add_rx_stats(&mut self)
        requires
            old(self).spec_rx_stats() < u64::MAX,
        ensures
            final(self).spec_rx_stats() == old(self).spec_rx_stats() + 1,
            final(self).spec_tx_stats() == old(self).spec_tx_stats(),
            final(self).spec_channels() == old(self).spec_channels(),
            final(self).spec_messages() == old(self).spec_messages(),
            final(self).spec_history_limit() == old(self).spec_history_limit(),
            old(self).wf() ==> final(self).wf(),
    {
        self.rx_stats += 1;
    }

    /// Counts a sent message.
    pub fn add_tx_stats(&mut self)
        requires
            old(self).spec_tx_stats() < u64::MAX,
        ensures
            final(self).spec_tx_stats() == old(self).spec_tx_stats() + 1,
            final(self).spec_rx_stats() == old(self).spec_rx_stats(),
            final(self).spec_channels() == old(self).spec_channels(),
            final(self).spec_messages() == old(self).spec_messages(),
            final(self).spec_history_limit() == old(self).spec_history_limit(),
            old(self).wf() ==> final(self).wf(),
    {
        self.tx_stats += 1;
    }

    /// The count of received messages.
    pub fn get_rx_stats(&self) -> (r: u64)
        ensures
            r == self.spec_rx_stats(),
    {
        self.rx_stats
    }

    /// The count of sent messages.
    pub fn get_tx_stats(&self) -> (r: u64)
        ensures
            r == self.spec_tx_stats(),
    {
        self.tx_stats
    }
}

} // verus!
