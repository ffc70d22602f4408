//! The first Mles server: its message of string vectors, its per-channel
//! databases and its peer counters.
use crate::local_db::{add_to_history, spec_add_history};
use std::collections::HashMap;
use vstd::prelude::*;

verus! {

broadcast use vstd::std_specs::hash::group_hash_axioms;

/// A message of the first server: a vector of strings.
pub struct Msg {
    pub message: Vec<String>,
}

/// Advances the peer counter kept in the high 32 bits of `cnt`; the low bits
/// are cleared, and the counter wraps to 0 past its top value.
pub fn inc_peer_cnt(cnt: u64) -> (r: u64)
    ensures
        r == ((cnt / 0x1_0000_0000 + 1) % 0x1_0000_0000) * 0x1_0000_0000,
{
    let mut val = cnt;
    val = val >> 32u64;
    proof {
        assert(val < 0x1_0000_0000u64 && val == cnt / 0x1_0000_0000u64) by (bit_vector)
            requires
                val == cnt >> 32u64,
        ;
    }
    val += 1;
    let r = val << 32u64;
    assert(r == (val % 0x1_0000_0000u64) * 0x1_0000_0000u64) by (bit_vector)
        requires
            r == val << 32u64,
            val <= 0x1_0000_0000u64,
    ;
    r
}

/// Whether a peer address is usable: its port is not 0.
pub fn has_peer(port: u16) -> (r: bool)
    ensures
        r == (port != 0),
{
    0 != port
}

/// The database of one channel of the first server.
pub struct MlesDb<T, P> {
    channels: Option<HashMap<u32, T>>,
    messages: Vec<Vec<u8>>,
    peer_tx: Option<P>,
    history_limit: usize,
    tx_db: Vec<T>,
}

impl<T, P> MlesDb<T, P> {
    /// The connections of the channel, once one was added.
    pub closed spec fn spec_channels(&self) -> Option<Map<u32, T>> {
        match self.channels {
            Some(c) => Some(c@),
            None => None,
        }
    }

    /// The message history, oldest first.
    pub closed spec fn spec_messages(&self) -> Seq<Seq<u8>> {
        self.messages@.map_values(|m: Vec<u8>| m@)
    }

    /// The history limit.
    pub closed spec fn spec_history_limit(&self) -> nat {
        self.history_limit as nat
    }

    /// The peer connection's sender, when one is set.
    pub closed spec fn spec_peer_tx(&self) -> Option<P> {
        self.peer_tx
    }

    /// The senders of all connections of the channel.
    pub closed spec fn spec_tx_db(&self) -> Seq<T> {
        self.tx_db@
    }

    /// The history never holds more messages than the limit.
    pub closed spec fn wf(&self) -> bool {
        self.messages@.len() <= self.history_limit
    }

    /// A new database with history limit `hlim`.
    pub fn new(hlim: usize) -> (r: Self)
        ensures
            r.wf(),
            r.spec_channels() is None,
            r.spec_messages() == Seq::<Seq<u8>>::empty(),
            r.spec_peer_tx() is None,
            r.spec_history_limit() == hlim,
            r.spec_tx_db() == Seq::<T>::empty(),
    {
        let r = MlesDb {
            channels: None,
            messages: Vec::new(),
            peer_tx: None,
            history_limit: hlim,
            tx_db: Vec::new(),
        };
        assert(r.spec_messages() =~= Seq::<Seq<u8>>::empty());
        r
    }

    /// The connections of the channel.
    pub fn get_channels(&self) -> (r: Option<&HashMap<u32, T>>)
        ensures
            (match r {
                Some(c) => Some(c@),
                None => None,
            }) == self.spec_channels(),
    {
        self.channels.as_ref()
    }

    /// The message history.
    pub fn get_messages(&self) -> (r: &Vec<Vec<u8>>)
        ensures
            r@.map_values(|m: Vec<u8>| m@) == self.spec_messages(),
    {
        &self.messages
    }

    /// The senders of all connections.
    pub fn get_tx_db(&self) -> (r: &Vec<T>)
        ensures
            r@ == self.spec_tx_db(),
    {
        &self.tx_db
    }

    /// Forgets the senders of all connections.
    pub fn clear_tx_db(&mut self)
        ensures
            final(self).spec_tx_db() == Seq::<T>::empty(),
            final(self).spec_channels() == old(self).spec_channels(),
            final(self).spec_messages() == old(self).spec_messages(),
            final(self).spec_peer_tx() == old(self).spec_peer_tx(),
            final(self).spec_history_limit() == old(self).spec_history_limit(),
            old(self).wf() ==> final(self).wf(),
    {
        self.tx_db = Vec::new();
    }

    /// Records the sender of a connection.
    pub fn add_tx_db(&mut self, tx: T)
        ensures
            final(self).spec_tx_db() == old(self).spec_tx_db().push(tx),
            final(self).spec_channels() == old(self).spec_channels(),
            final(self).spec_messages() == old(self).spec_messages(),
            final(self).spec_peer_tx() == old(self).spec_peer_tx(),
            final(self).spec_history_limit() == old(self).spec_history_limit(),
            old(self).wf() ==> final(self).wf(),
    {
        self.tx_db.push(tx);
    }

    /// The history limit.
    pub fn get_history_limit(&self) -> (r: usize)
        ensures
            r == self.spec_history_limit(),
    {
        self.history_limit
    }

    /// The peer connection's sender.
    pub fn get_peer_tx(&self) -> (r: Option<&P>)
        ensures
            (match r {
                Some(p) => Some(*p),
                None => None,
            }) == self.spec_peer_tx(),
    {
        self.peer_tx.as_ref()
    }

    /// Adds a connection under connection id `cid`, replacing any with that id.
    pub fn add_channel(&mut self, cid: u32, sender: T)
        ensures
            final(self).spec_channels() == Some(
                (match old(self).spec_channels() {
                    Some(c) => c,
                    None => Map::<u32, T>::empty(),
                }).insert(cid, sender),
            ),
            final(self).spec_messages() == old(self).spec_messages(),
            final(self).spec_peer_tx() == old(self).spec_peer_tx(),
            final(self).spec_history_limit() == old(self).spec_history_limit(),
            final(self).spec_tx_db() == old(self).spec_tx_db(),
            old(self).wf() ==> final(self).wf(),
    {
        let mut channels = match self.channels.take() {
            Some(c) => c,
            None => HashMap::new(),
        };
        channels.insert(cid, sender);
        self.channels = Some(channels);
    }

    /// Whether a connection with id `cid` is in the channel.
    pub fn check_for_duplicate_cid(&self, cid: u32) -> (r: bool)
        ensures
            r == (match self.spec_channels() {
                Some(c) => c.contains_key(cid),
                None => false,
            }),
    {
        if let Some(channels) = &self.channels {
            if channels.contains_key(&cid) {
                return true;
            }
        }
        false
    }

    /// Removes the connection with id `cid`.
    pub fn rem_channel(&mut self, cid: u32)
        ensures
            final(self).spec_channels() == (match old(self).spec_channels() {
                Some(c) => Some(c.remove(cid)),
                None => None,
            }),
            final(self).spec_messages() == old(self).spec_messages(),
            final(self).spec_peer_tx() == old(self).spec_peer_tx(),
            final(self).spec_history_limit() == old(self).spec_history_limit(),
            final(self).spec_tx_db() == old(self).spec_tx_db(),
            old(self).wf() ==> final(self).wf(),
    {
        if let Some(channels) = &mut self.channels {
            channels.remove(&cid);
        }
    }

    /// The number of connections.
    pub fn get_channels_len(&mut self) -> (r: usize)
        ensures
            *final(self) == *old(self),
            r == (match old(self).spec_channels() {
                Some(c) => c.len(),
                None => 0,
            }),
    {
        if let Some(channels) = &self.channels {
            return channels.len();
        }
        0
    }

    /// Adds a message to the history under the history limit.
    pub fn add_message(&mut self, message: Vec<u8>)
        ensures
            final(self).spec_messages() == spec_add_history(
                old(self).spec_messages(),
                old(self).spec_history_limit(),
                message@,
            ),
            final(self).spec_channels() == old(self).spec_channels(),
            final(self).spec_peer_tx() == old(self).spec_peer_tx(),
            final(self).spec_history_limit() == old(self).spec_history_limit(),
            final(self).spec_tx_db() == old(self).spec_tx_db(),
            old(self).wf() ==> final(self).wf(),
    {
        let ghost m = message@;
        let ghost before = self.messages@;
        add_to_history(&mut self.messages, self.history_limit, message);
        proof {
            let lim = self.history_limit as nat;
            if lim != 0 {
                if before.len() == lim {
                    assert(self.messages@.map_values(|v: Vec<u8>| v@) =~= before.map_values(
                        |v: Vec<u8>| v@,
                    ).drop_first().push(m));
                } else {
                    assert(self.messages@.map_values(|v: Vec<u8>| v@) =~= before.map_values(
                        |v: Vec<u8>| v@,
                    ).push(m));
                }
            } else {
                assert(self.messages@ == before);
            }
        }
    }

    /// Sets the peer connection's sender.
    pub fn set_peer_tx(&mut self, peer_tx: P)
        ensures
            final(self).spec_peer_tx() == Some(peer_tx),
            final(self).spec_channels() == old(self).spec_channels(),
            final(self).spec_messages() == old(self).spec_messages(),
            final(self).spec_history_limit() == old(self).spec_history_limit(),
            final(self).spec_tx_db() == old(self).spec_tx_db(),
            old(self).wf() ==> final(self).wf(),
    {
        self.peer_tx = Some(peer_tx);
    }
}

/// The database of a peer connection of the first server.
pub struct MlesPeerDb<T> {
    channels: Vec<T>,
    messages: Vec<Vec<u8>>,
    history_limit: usize,
}

impl<T> MlesPeerDb<T> {
    /// The local connections, in the order they were added.
    pub closed spec fn spec_channels(&self) -> Seq<T> {
        self.channels@
    }

    /// The message history, oldest first.
    pub closed spec fn spec_messages(&self) -> Seq<Seq<u8>> {
        self.messages@.map_values(|m: Vec<u8>| m@)
    }

    /// The history limit.
    pub closed spec fn spec_history_limit(&self) -> nat {
        self.history_limit as nat
    }

    /// The history never holds more messages than the limit.
    pub closed spec fn wf(&self) -> bool {
        self.messages@.len() <= self.history_limit
    }

    /// A new peer database with history limit `hlim`.
    pub fn new(hlim: usize) -> (r: Self)
        ensures
            r.wf(),
            r.spec_channels() == Seq::<T>::empty(),
            r.spec_messages() == Seq::<Seq<u8>>::empty(),
            r.spec_history_limit() == hlim,
    {
        let r = MlesPeerDb { channels: Vec::new(), messages: Vec::new(), history_limit: hlim };
        assert(r.spec_messages() =~= Seq::<Seq<u8>>::empty());
        r
    }

    /// The local connections.
    pub fn get_channels(&self) -> (r: &Vec<T>)
        ensures
            r@ == self.spec_channels(),
    {
        &self.channels
    }

    /// Adds a local connection.
    pub fn add_channel(&mut self, channel: T)
        ensures
            final(self).spec_channels() == old(self).spec_channels().push(channel),
            final(self).spec_messages() == old(self).spec_messages(),
            final(self).spec_history_limit() == old(self).spec_history_limit(),
            old(self).wf() ==> final(self).wf(),
    {
        self.channels.push(channel);
    }

    /// Removes all local connections.
    pub fn clear_channels(&mut self)
        ensures
            final(self).spec_channels() == Seq::<T>::empty(),
            final(self).spec_messages() == old(self).spec_messages(),
            final(self).spec_history_limit() == old(self).spec_history_limit(),
            old(self).wf() ==> final(self).wf(),
    {
        self.channels = Vec::new();
    }

    /// Adds a message to the history under the history limit.
    pub fn add_message(&mut self, message: Vec<u8>)
        ensures
            final(self).spec_messages() == spec_add_history(
                old(self).spec_messages(),
                old(self).spec_history_limit(),
                message@,
            ),
            final(self).spec_channels() == old(self).spec_channels(),
            final(self).spec_history_limit() == old(self).spec_history_limit(),
            old(self).wf() ==> final(self).wf(),
    {
        let ghost m = message@;
        let ghost before = self.messages@;
        add_to_history(&mut self.messages, self.history_limit, message);
        proof {
            let lim = self.history_limit as nat;
            if lim != 0 {
                if before.len() == lim {
                    assert(self.messages@.map_values(|v: Vec<u8>| v@) =~= before.map_values(
                        |v: Vec<u8>| v@,
                    ).drop_first().push(m));
                } else {
                    assert(self.messages@.map_values(|v: Vec<u8>| v@) =~= before.map_values(
                        |v: Vec<u8>| v@,
                    ).push(m));
                }
            } else {
                assert(self.messages@ == before);
            }
        }
    }

    /// The message history.
    pub fn get_messages(&self) -> (r: &Vec<Vec<u8>>)
        ensures
            r@.map_values(|m: Vec<u8>| m@) == self.spec_messages(),
    {
        &self.messages
    }

    /// The history limit.
    pub fn get_history_limit(&mut self) -> (r: usize)
        ensures
            *final(self) == *old(self),
            r == old(self).spec_history_limit(),
    {
        self.history_limit
    }

    /// The number of messages in the history.
    pub fn get_messages_len(&mut self) -> (r: usize)
        ensures
            *final(self) == *old(self),
            r == old(self).spec_messages().len(),
    {
        self.messages.len()
    }
}

/// The users of one channel of the first server, each with its connection,
/// and the channel's values. A user name occurs at most once.
pub struct ChannelDb<S> {
    channelname: String,
    users: Vec<(String, S)>,
    values: Vec<Vec<String>>,
}

/// The user names of `u`, in order.
pub open spec fn user_names<S>(u: Seq<(String, S)>) -> Seq<Seq<char>> {
    u.map_values(|p: (String, S)| p.0@)
}

/// The users of `u` and their connections, a later entry winning.
pub open spec fn users_map<S>(u: Seq<(String, S)>) -> Map<Seq<char>, S>
    decreases u.len(),
{
    if u.len() == 0 {
        Map::empty()
    } else {
        users_map(u.drop_last()).insert(u.last().0@, u.last().1)
    }
}

pub(crate) proof fn lemma_users_map_dom<S>(u: Seq<(String, S)>, n: Seq<char>)
    ensures
        users_map(u).contains_key(n) <==> user_names(u).contains(n),
    decreases u.len(),
{
    if u.len() > 0 {
        let d = u.drop_last();
        lemma_users_map_dom(d, n);
        assert(user_names(u) =~= user_names(d).push(u.last().0@));
        if user_names(d).contains(n) {
            let k = choose|k: int| 0 <= k < user_names(d).len() && user_names(d)[k] == n;
            assert(user_names(u)[k] == n);
        }
        if user_names(u).contains(n) {
            let k = choose|k: int| 0 <= k < user_names(u).len() && user_names(u)[k] == n;
            if k < d.len() {
                assert(user_names(d)[k] == n);
            }
        }
        if n == u.last().0@ {
            assert(user_names(u)[u.len() - 1] == n);
        }
    }
}

pub(crate) proof fn lemma_users_map_remove<S>(u: Seq<(String, S)>, i: int)
    requires
        0 <= i < u.len(),
        user_names(u).no_duplicates(),
    ensures
        users_map(u.remove(i)) == users_map(u).remove(u[i].0@),
        user_names(u.remove(i)).no_duplicates(),
    decreases u.len(),
{
    let d = u.drop_last();
    assert(user_names(u) =~= user_names(d).push(u.last().0@));
    assert forall|a: int, b: int| 0 <= a < b < user_names(d).len() implies user_names(d)[a]
        != user_names(d)[b] by {
        assert(user_names(d)[a] == user_names(u)[a]);
        assert(user_names(d)[b] == user_names(u)[b]);
    }
    assert(user_names(u.remove(i)) =~= user_names(u).remove(i));
    assert forall|a: int, b: int| 0 <= a < b < user_names(u).remove(i).len() implies user_names(
        u,
    ).remove(i)[a] != user_names(u).remove(i)[b] by {
        let a2 = if a < i { a } else { a + 1 };
        let b2 = if b < i { b } else { b + 1 };
        assert(user_names(u).remove(i)[a] == user_names(u)[a2]);
        assert(user_names(u).remove(i)[b] == user_names(u)[b2]);
    }
    if i == u.len() - 1 {
        assert(u.remove(i) =~= d);
        lemma_users_map_dom(d, u.last().0@);
        assert(!user_names(d).contains(u.last().0@)) by {
            if user_names(d).contains(u.last().0@) {
                let k = choose|k: int| 0 <= k < user_names(d).len() && user_names(d)[k] == u.last().0@;
                assert(user_names(u)[k] == user_names(u)[u.len() - 1]);
            }
        }
        assert(users_map(u.remove(i)) =~= users_map(u).remove(u[i].0@));
    } else {
        lemma_users_map_remove(d, i);
        let ur = u.remove(i);
        assert(ur =~= d.remove(i).push(u.last()));
        assert(ur.drop_last() =~= d.remove(i));
        assert(ur.last() == u.last());
        assert(users_map(ur) == users_map(d.remove(i)).insert(u.last().0@, u.last().1));
        assert(users_map(u) == users_map(d).insert(u.last().0@, u.last().1));
        assert(d[i] == u[i]);
        assert(u[i].0@ != u.last().0@) by {
            assert(user_names(u)[i] != user_names(u)[u.len() - 1]);
        }
        assert(users_map(ur) =~= users_map(u).remove(u[i].0@));
    }
}

/// Replacing the value at a position replaces the value of its name.
pub(crate) proof fn lemma_users_map_update<S>(u: Seq<(String, S)>, i: int, x: S)
    requires
        0 <= i < u.len(),
        user_names(u).no_duplicates(),
    ensures
        users_map(u.update(i, (u[i].0, x))) == users_map(u).insert(u[i].0@, x),
        user_names(u.update(i, (u[i].0, x))) == user_names(u),
    decreases u.len(),
{
    let v = u.update(i, (u[i].0, x));
    assert(user_names(v) =~= user_names(u));
    let d = u.drop_last();
    assert(user_names(u) =~= user_names(d).push(u.last().0@));
    if i == u.len() - 1 {
        assert(v.drop_last() =~= d);
        assert(v.last() == (u[i].0, x));
        assert(users_map(v) =~= users_map(u).insert(u[i].0@, x));
    } else {
        assert forall|a: int, b: int| 0 <= a < b < user_names(d).len() implies user_names(d)[a]
            != user_names(d)[b] by {
            assert(user_names(d)[a] == user_names(u)[a]);
            assert(user_names(d)[b] == user_names(u)[b]);
        }
        lemma_users_map_update(d, i, x);
        assert(v.drop_last() =~= d.update(i, (d[i].0, x)));
        assert(v.last() == u.last());
        assert(u[i].0@ != u.last().0@) by {
            assert(user_names(u)[i] != user_names(u)[u.len() - 1]);
        }
        assert(users_map(v) =~= users_map(u).insert(u[i].0@, x));
    }
}

impl<S> ChannelDb<S> {
    /// The users and their connections.
    pub closed spec fn spec_users(&self) -> Map<Seq<char>, S> {
        users_map(self.users@)
    }

    /// The channel's name.
    pub closed spec fn spec_name(&self) -> Seq<char> {
        self.channelname@
    }

    /// The channel's values.
    pub closed spec fn spec_values(&self) -> Seq<Vec<String>> {
        self.values@
    }

    /// The channel's name.
    pub fn channelname(&self) -> (r: &String)
        ensures
            r@ == self.spec_name(),
    {
        &self.channelname
    }

    /// The channel's values.
    pub fn values(&self) -> (r: &Vec<Vec<String>>)
        ensures
            r@ == self.spec_values(),
    {
        &self.values
    }

    /// Every user name occurs once.
    pub closed spec fn wf(&self) -> bool {
        user_names(self.users@).no_duplicates()
    }

    /// An empty channel named `channelname`.
    pub fn new(channelname: String) -> (r: Self)
        ensures
            r.wf(),
            r.spec_users() == Map::<Seq<char>, S>::empty(),
            r.spec_name() == channelname@,
            r.spec_values().len() == 0,
    {
        let r = ChannelDb { channelname, users: Vec::new(), values: Vec::new() };
        assert(user_names(r.users@) =~= Seq::<Seq<char>>::empty());
        r
    }

    /// The position of user `userid`, if present.
    fn find_user(&self, userid: &str) -> (r: Option<usize>)
        ensures
            match r {
                Some(i) => i < self.users@.len() && self.users@[i as int].0@ == userid@,
                None => !user_names(self.users@).contains(userid@),
            },
    {
        let n = self.users.len();
        for i in 0..n
            invariant
                n == self.users@.len(),
                forall|j: int| 0 <= j < i ==> self.users@[j].0@ != userid@,
        {
            if crate::text::str_eq(self.users[i].0.as_str(), userid) {
                return Some(i);
            }
        }
        proof {
            let names = user_names(self.users@);
            if names.contains(userid@) {
                let k = choose|k: int| 0 <= k < names.len() && names[k] == userid@;
                assert(self.users@[k].0@ == userid@);
            }
        }
        None
    }

    /// Whether user `userid` is in the channel.
    pub fn check_user_existence(&self, userid: &str) -> (r: bool)
        ensures
            r == self.spec_users().contains_key(userid@),
    {
        let r = self.find_user(userid);
        proof {
            lemma_users_map_dom(self.users@, userid@);
            if let Some(i) = r {
                assert(user_names(self.users@)[i as int] == userid@);
            }
        }
        r.is_some()
    }

    /// Joins user `userid` with connection `socket`; a user already in the
    /// channel keeps its connection.
    pub fn join_channel(self, socket: S, userid: &str) -> (r: Self)
        requires
            self.wf(),
        ensures
            r.wf(),
            r.spec_users() == (if self.spec_users().contains_key(userid@) {
                self.spec_users()
            } else {
                self.spec_users().insert(userid@, socket)
            }),
            r.spec_name() == self.spec_name(),
            r.spec_values() == self.spec_values(),
    {
        let mut db = self;
        let found = db.find_user(userid);
        proof {
            lemma_users_map_dom(db.users@, userid@);
            if let Some(i) = found {
                assert(user_names(db.users@)[i as int] == userid@);
            }
        }
        if found.is_none() {
            let ghost old_users = db.users@;
            db.users.push((String::from_str(userid), socket));
            proof {
                assert(db.users@.drop_last() =~= old_users);
                assert(user_names(db.users@) =~= user_names(old_users).push(userid@));
            }
        }
        db
    }

    /// User `userid` leaves the channel.
    pub fn leave_channel(self, userid: &str) -> (r: Self)
        requires
            self.wf(),
        ensures
            r.wf(),
            r.spec_users() == self.spec_users().remove(userid@),
            r.spec_name() == self.spec_name(),
            r.spec_values() == self.spec_values(),
    {
        let mut db = self;
        proof {
            lemma_users_map_dom(db.users@, userid@);
        }
        match db.find_user(userid) {
            Some(i) => {
                proof {
                    lemma_users_map_remove(db.users@, i as int);
                }
                db.users.remove(i);
            },
            None => {
                assert(db.spec_users() =~= self.spec_users().remove(userid@));
            },
        }
        db
    }
}

} // verus!
