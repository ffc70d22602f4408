//! The channel relay of the TCP Mles server: which connections a frame goes
//! to, what history a joining user is sent, what joins the history, when a
//! peer connection is started, and what is forgotten when a connection
//! closes. Connections and senders are stood for by handles; the caller
//! keeps the senders and performs the sends.
use crate::legacy::{
    lemma_users_map_dom, lemma_users_map_remove, lemma_users_map_update, user_names, users_map,
};
use crate::local_db::{spec_add_history, MlesDb};
use crate::peer::clear_peer_cid;
use crate::text::str_eq;
use crate::websocket::{lemma_seen_step, seen};
use std::collections::HashMap;
use vstd::prelude::*;
use vstd::std_specs::hash::spec_keys_iter;
use vstd::std_specs::iter::IteratorSpec;

verus! {

broadcast use vstd::std_specs::hash::group_hash_axioms;

/// What the database of one channel holds: its connections (id to sender
/// handle) once one joined, its history, its peer sender, its history limit
/// and the senders of all connections that joined.
pub struct DbView {
    pub conns: Option<Map<u64, u64>>,
    pub history: Seq<Seq<u8>>,
    pub peer_tx: Option<u64>,
    pub limit: nat,
    pub txs: Seq<u64>,
}

/// The view of a channel database.
pub open spec fn db_view(d: MlesDb<u64, u64>) -> DbView {
    DbView {
        conns: d.spec_channels(),
        history: d.spec_messages(),
        peer_tx: d.spec_peer_tx(),
        limit: d.spec_history_limit(),
        txs: d.spec_tx_db(),
    }
}

/// The connections of a channel, none before the first joined.
pub open spec fn conns_of(d: DbView) -> Map<u64, u64> {
    match d.conns {
        Some(c) => c,
        None => Map::empty(),
    }
}

/// The connections of a channel that a frame from connection `cid` goes
/// to: all others, each with its sender.
pub open spec fn targets_of(d: DbView, cid: u64) -> Set<(u64, u64)> {
    Set::new(|p: (u64, u64)| conns_of(d).contains_key(p.0) && p.0 != cid && conns_of(d)[p.0] == p.1)
}

/// The history after adding each of `msgs` in turn.
pub open spec fn add_all(h: Seq<Seq<u8>>, limit: nat, msgs: Seq<Seq<u8>>) -> Seq<Seq<u8>>
    decreases msgs.len(),
{
    if msgs.len() == 0 {
        h
    } else {
        spec_add_history(add_all(h, limit, msgs.drop_last()), limit, msgs.last())
    }
}

/// What the relay holds: the database of each channel by name, the
/// connection id and channel of each connection by its number, the history
/// limit of new channels, and whether a peer server is configured.
pub struct RelayView {
    pub dbs: Map<Seq<char>, DbView>,
    pub conns: Map<u64, (u64, Seq<char>)>,
    pub hist_limit: nat,
    pub has_peer: bool,
}

/// What a join asks the caller to do: start a peer connection for the
/// channel; hand the joining sender to the channel's peer sender; send the
/// history to the joining user; forward its frames to these connections.
pub struct JoinView {
    pub spawn_peer: bool,
    pub to_peer: Option<u64>,
    pub replay: Seq<Seq<u8>>,
    pub targets: Set<(u64, u64)>,
}

/// A new channel database.
pub open spec fn fresh_db(limit: nat) -> DbView {
    DbView { conns: None, history: seq![], peer_tx: None, limit, txs: seq![] }
}

/// A channel database `d0` after connection `cid` with sender `tx` joins
/// it with the frames `msgs`, and what the caller is to do; `fresh` says
/// that the channel was just created.
pub open spec fn spec_join_db(d0: DbView, fresh: bool, has_peer: bool, cid: u64, msgs: Seq<Seq<u8>>, tx: u64) -> (
    DbView,
    JoinView,
) {
    let d1 = DbView { conns: Some(conns_of(d0).insert(cid, tx)), ..d0 };
    let history = if has_peer {
        d1.history
    } else if msgs.len() > 1 && d1.history.len() == 0 {
        add_all(d1.history, d1.limit, msgs)
    } else {
        spec_add_history(d1.history, d1.limit, msgs[0])
    };
    (
        DbView { history, txs: d1.txs.push(tx), ..d1 },
        JoinView {
            spawn_peer: has_peer && (fresh || d0.peer_tx is None),
            to_peer: if has_peer && !fresh {
                d0.peer_tx
            } else {
                None
            },
            replay: if !has_peer && !fresh {
                d0.history
            } else {
                seq![]
            },
            targets: targets_of(d1, cid),
        },
    )
}

/// The relay after connection number `conn`, with connection id `cid` and
/// sender `tx`, joins channel `ch` with the frames `msgs` (its first frame,
/// or the entries of its resynchronization), and what the caller is to do;
/// `None` when the channel already has a connection with that id, which
/// the server refuses.
pub open spec fn spec_join(v: RelayView, conn: u64, ch: Seq<char>, cid: u64, msgs: Seq<Seq<u8>>, tx: u64) -> (
    RelayView,
    Option<JoinView>,
) {
    let fresh = !v.dbs.contains_key(ch);
    if !fresh && conns_of(v.dbs[ch]).contains_key(cid as u32 as u64) {
        (v, None)
    } else {
        let d0 = if fresh {
            fresh_db(v.hist_limit)
        } else {
            v.dbs[ch]
        };
        let (d2, jv) = spec_join_db(d0, fresh, v.has_peer, cid, msgs, tx);
        (
            RelayView { dbs: v.dbs.insert(ch, d2), conns: v.conns.insert(conn, (cid, ch)), ..v },
            Some(jv),
        )
    }
}

/// What a frame asks the caller to do: start a peer connection for the
/// channel; forward the frame to these connections.
pub struct MessageView {
    pub spawn_peer: bool,
    pub targets: Set<(u64, u64)>,
}

/// The relay after a frame `msg` arrives from connection `cid` of channel
/// `ch`, whether a peer connection is to be started, and where the frame
/// goes; `None` for a channel the relay does not know.
pub open spec fn spec_message(v: RelayView, ch: Seq<char>, cid: u64, msg: Seq<u8>) -> (
    RelayView,
    Option<MessageView>,
) {
    if !v.dbs.contains_key(ch) {
        (v, None)
    } else {
        let d = v.dbs[ch];
        let d2 = if v.has_peer {
            d
        } else {
            DbView { history: spec_add_history(d.history, d.limit, msg), ..d }
        };
        (
            RelayView { dbs: v.dbs.insert(ch, d2), ..v },
            Some(MessageView { spawn_peer: v.has_peer && d.peer_tx is None, targets: targets_of(d, cid) }),
        )
    }
}

/// The relay after the peer connection of channel `ch` is up, with peer id
/// `peer_cid`, the sender `peer_tx` of the peer's frames and the sender
/// `tx_orig` that takes the channel's connections; and the senders to hand
/// to `tx_orig`: those of all connections that joined.
pub open spec fn spec_peer_up(v: RelayView, ch: Seq<char>, peer_cid: u64, peer_tx: u64, tx_orig: u64) -> (
    RelayView,
    Seq<u64>,
) {
    if !v.dbs.contains_key(ch) {
        (v, seq![])
    } else {
        let d = v.dbs[ch];
        let d2 = DbView { conns: Some(conns_of(d).insert(peer_cid, peer_tx)), peer_tx: Some(tx_orig), ..d };
        (RelayView { dbs: v.dbs.insert(ch, d2), ..v }, d.txs)
    }
}

/// `c` without key `k`.
pub open spec fn without_conn(c: Option<Map<u64, u64>>, k: u64) -> Option<Map<u64, u64>> {
    match c {
        Some(m) => Some(m.remove(k)),
        None => None,
    }
}

/// The relay after the peer connection `peer_cid` of channel `ch` is given
/// up: the peer's id and its plain id leave the connections, and the peer
/// sender is forgotten.
pub open spec fn spec_peer_down(v: RelayView, ch: Seq<char>, peer_cid: u64) -> RelayView {
    if !v.dbs.contains_key(ch) {
        v
    } else {
        let d = v.dbs[ch];
        let d2 = DbView {
            conns: without_conn(without_conn(d.conns, peer_cid), (peer_cid % 0x1_0000_0000) as u64),
            peer_tx: None,
            ..d
        };
        RelayView { dbs: v.dbs.insert(ch, d2), ..v }
    }
}

/// The relay after a send to connection `cid` of channel `ch` failed: the
/// connection leaves the channel.
pub open spec fn spec_drop_conn(v: RelayView, cid: u64, ch: Seq<char>) -> RelayView {
    if !v.dbs.contains_key(ch) {
        v
    } else {
        let d = v.dbs[ch];
        RelayView { dbs: v.dbs.insert(ch, DbView { conns: without_conn(d.conns, cid), ..d }), ..v }
    }
}

/// The relay after connection number `conn` closes: its id leaves its
/// channel; a channel left without connections forgets its senders, and is
/// dropped when it keeps no history. The entry then removed from the
/// connection table is the one numbered like the connection's id, as the
/// server has always done.
pub open spec fn spec_closed(v: RelayView, conn: u64) -> RelayView {
    if !v.conns.contains_key(conn) {
        v
    } else {
        let (cid, ch) = v.conns[conn];
        if !v.dbs.contains_key(ch) {
            v
        } else {
            let d = v.dbs[ch];
            let d1 = DbView { conns: without_conn(d.conns, cid), ..d };
            let empty = conns_of(d1).len() == 0;
            let d2 = if empty {
                DbView { txs: seq![], ..d1 }
            } else {
                d1
            };
            RelayView {
                dbs: if empty && d.limit == 0 {
                    v.dbs.remove(ch)
                } else {
                    v.dbs.insert(ch, d2)
                },
                conns: v.conns.remove(cid),
                ..v
            }
        }
    }
}

/// The relay's invariant: every history within its limit and every
/// connection table finite.
pub open spec fn relay_ok(v: RelayView) -> bool {
    forall|c: Seq<char>| #[trigger]
        v.dbs.contains_key(c) ==> v.dbs[c].history.len() <= v.dbs[c].limit && conns_of(
            v.dbs[c],
        ).dom().finite()
}

/// The views of the channel databases.
pub open spec fn views_of(um: Map<Seq<char>, MlesDb<u64, u64>>) -> Map<Seq<char>, DbView> {
    Map::new(|n: Seq<char>| um.contains_key(n), |n: Seq<char>| db_view(um[n]))
}

proof fn lemma_views_insert(um: Map<Seq<char>, MlesDb<u64, u64>>, k: Seq<char>, d: MlesDb<u64, u64>)
    ensures
        views_of(um.insert(k, d)) == views_of(um).insert(k, db_view(d)),
        views_of(um.remove(k)) == views_of(um).remove(k),
{
    assert(views_of(um.insert(k, d)) =~= views_of(um).insert(k, db_view(d)));
    assert(views_of(um.remove(k)) =~= views_of(um).remove(k));
}

/// The channel relay of the TCP server.
pub struct Relay {
    dbs: Vec<(String, MlesDb<u64, u64>)>,
    conns: HashMap<u64, (u64, String)>,
    hist_limit: usize,
    has_peer: bool,
}

impl View for Relay {
    type V = RelayView;

    closed spec fn view(&self) -> RelayView {
        RelayView {
            dbs: views_of(users_map(self.dbs@)),
            conns: Map::new(
                |k: u64| self.conns@.contains_key(k),
                |k: u64| (self.conns@[k].0, self.conns@[k].1@),
            ),
            hist_limit: self.hist_limit as nat,
            has_peer: self.has_peer,
        }
    }
}

/// The other connections of a channel, each with its sender.
fn targets(conns: Option<&HashMap<u64, u64>>, cid: u64) -> (r: Vec<(u64, u64)>)
    ensures
        r@.to_set() == Set::new(
            |p: (u64, u64)| {
                let m = match conns {
                    Some(c) => c@,
                    None => Map::<u64, u64>::empty(),
                };
                m.contains_key(p.0) && p.0 != cid && m[p.0] == p.1
            },
        ),
        r@.no_duplicates(),
{
    let mut out: Vec<(u64, u64)> = Vec::new();
    match conns {
        None => {
            assert(out@.to_set() =~= Set::<(u64, u64)>::empty());
            out
        },
        Some(m) => {
            let ghost all = spec_keys_iter(m).remaining().unref();
            proof {
                vstd::std_specs::hash::axiom_spec_keys_iter(m);
            }
            for k in it: m.keys()
                invariant
                    all == spec_keys_iter(m).remaining().unref(),
                    it.seq() == spec_keys_iter(m).remaining(),
                    all.to_set() == m@.dom(),
                    all.no_duplicates(),
                    out@.no_duplicates(),
                    forall|p: (u64, u64)| #[trigger]
                        out@.contains(p) <==> (seen(all, it.index() as int, p.0) && m@.contains_key(
                            p.0,
                        ) && p.0 != cid && m@[p.0] == p.1),
            {
                let ghost i = it.index();
                let key = *k;
                proof {
                    assert(all[i] == key);
                    assert(all.to_set().contains(key));
                    lemma_seen_step(all, i as int);
                }
                if key != cid {
                    match m.get(&key) {
                        Some(h) => {
                            let ghost prev = out@;
                            out.push((key, *h));
                            proof {
                                assert forall|p: (u64, u64)| #[trigger] out@.contains(p) <==> (
                                prev.contains(p) || p == (key, *h)) by {
                                    if out@.contains(p) {
                                        let j = choose|j: int| 0 <= j < out@.len() && out@[j] == p;
                                        if j < prev.len() {
                                            assert(prev[j] == p);
                                        }
                                    }
                                    if prev.contains(p) {
                                        let j = choose|j: int| 0 <= j < prev.len() && prev[j] == p;
                                        assert(out@[j] == p);
                                    }
                                    if p == (key, *h) {
                                        assert(out@[prev.len() as int] == p);
                                    }
                                }
                                assert(!prev.contains((key, *h)));
                            }
                        },
                        None => {},
                    }
                }
            }
            proof {
                assert forall|x: u64| seen(all, all.len() as int, x) <==> m@.contains_key(x) by {
                    assert(all.to_set().contains(x) <==> all.contains(x));
                    if all.contains(x) {
                        let j = choose|j: int| 0 <= j < all.len() && all[j] == x;
                        assert(all[j] == x);
                    }
                }
                assert(out@.to_set() =~= Set::new(
                    |p: (u64, u64)| m@.contains_key(p.0) && p.0 != cid && m@[p.0] == p.1,
                ));
            }
            out
        },
    }
}

/// What a join asks the caller to do.
pub struct JoinActions {
    /// Start a peer connection for the channel.
    pub spawn_peer: bool,
    /// Hand the joining sender to this peer sender.
    pub to_peer: Option<u64>,
    /// Send these frames of history to the joining user.
    pub replay: Vec<Vec<u8>>,
    /// Forward the joining frames to these connections (id, sender).
    pub targets: Vec<(u64, u64)>,
}

/// The views of some frames.
pub open spec fn frames_view(v: Seq<Vec<u8>>) -> Seq<Seq<u8>> {
    v.map_values(|f: Vec<u8>| f@)
}

/// The view of a connection table.
pub open spec fn conn_table_view(m: Map<u64, (u64, String)>) -> Map<u64, (u64, Seq<char>)> {
    Map::new(|k: u64| m.contains_key(k), |k: u64| (m[k].0, m[k].1@))
}

proof fn lemma_conn_table(m: Map<u64, (u64, String)>, k: u64, x: (u64, String))
    ensures
        conn_table_view(m.insert(k, x)) == conn_table_view(m).insert(k, (x.0, x.1@)),
{
    assert(conn_table_view(m.insert(k, x)) =~= conn_table_view(m).insert(k, (x.0, x.1@)));
}

proof fn lemma_conn_table_remove(m: Map<u64, (u64, String)>, k: u64)
    ensures
        conn_table_view(m.remove(k)) == conn_table_view(m).remove(k),
{
    assert(conn_table_view(m.remove(k)) =~= conn_table_view(m).remove(k));
}

/// The value a name has is the one at its position.
proof fn lemma_users_map_at(u: Seq<(String, MlesDb<u64, u64>)>, i: int)
    requires
        0 <= i < u.len(),
        user_names(u).no_duplicates(),
    ensures
        users_map(u).contains_key(u[i].0@),
        users_map(u)[u[i].0@] == u[i].1,
{
    lemma_users_map_update(u, i, u[i].1);
    assert(u.update(i, (u[i].0, u[i].1)) =~= u);
}

/// Copies a history.
fn copy_history(h: &Vec<Vec<u8>>) -> (r: Vec<Vec<u8>>)
    ensures
        frames_view(r@) == frames_view(h@),
{
    let mut r: Vec<Vec<u8>> = Vec::new();
    let n = h.len();
    for i in 0..n
        invariant
            n == h@.len(),
            frames_view(r@) == frames_view(h@.take(i as int)),
    {
        let ghost prev = r@;
        r.push(crate::msg::copy_bytes(&h[i]));
        proof {
            assert(frames_view(r@) =~= frames_view(prev).push(h@[i as int]@));
            assert(frames_view(h@.take(i + 1)) =~= frames_view(h@.take(i as int)).push(h@[i as int]@));
        }
    }
    assert(h@.take(n as int) =~= h@);
    r
}

impl Relay {
    /// Names are unique and every history is within its limit.
    pub closed spec fn wf(&self) -> bool {
        &&& user_names(self.dbs@).no_duplicates()
        &&& forall|i: int| 0 <= i < self.dbs@.len() ==> #[trigger] self.dbs@[i].1.wf()
    }

    /// An empty relay whose channels keep `hist_limit` frames, with or
    /// without a peer server.
    pub fn new(hist_limit: usize, has_peer: bool) -> (r: Relay)
        ensures
            r.wf(),
            r@.dbs == Map::<Seq<char>, DbView>::empty(),
            r@.conns == Map::<u64, (u64, Seq<char>)>::empty(),
            r@.hist_limit == hist_limit,
            r@.has_peer == has_peer,
    {
        let r = Relay { dbs: Vec::new(), conns: HashMap::new(), hist_limit, has_peer };
        assert(user_names(r.dbs@) =~= Seq::<Seq<char>>::empty());
        assert(r@.dbs =~= Map::<Seq<char>, DbView>::empty());
        assert(r@.conns =~= Map::<u64, (u64, Seq<char>)>::empty());
        r
    }

    /// The position of channel `ch`.
    fn find_db(&self, ch: &str) -> (r: Option<usize>)
        requires
            self.wf(),
        ensures
            match r {
                Some(i) => i < self.dbs@.len() && self.dbs@[i as int].0@ == ch@,
                None => !user_names(self.dbs@).contains(ch@),
            },
            self@.dbs.contains_key(ch@) <==> r is Some,
            r matches Some(i) ==> self@.dbs[ch@] == db_view(self.dbs@[i as int].1),
    {
        let n = self.dbs.len();
        let mut i: usize = 0;
        while i < n
            invariant
                n == self.dbs@.len(),
                i <= n,
                user_names(self.dbs@).no_duplicates(),
                forall|j: int| 0 <= j < i ==> self.dbs@[j].0@ != ch@,
            decreases n - i,
        {
            if str_eq(self.dbs[i].0.as_str(), ch) {
                proof {
                    lemma_users_map_at(self.dbs@, i as int);
                    lemma_users_map_dom(self.dbs@, ch@);
                }
                return Some(i);
            }
            i = i + 1;
        }
        proof {
            let names = user_names(self.dbs@);
            if names.contains(ch@) {
                let k = choose|k: int| 0 <= k < names.len() && names[k] == ch@;
                assert(self.dbs@[k].0@ == ch@);
            }
            lemma_users_map_dom(self.dbs@, ch@);
        }
        None
    }
}

/// Joins connection `cid` with sender `tx` to the database `db` with the
/// frames `msgs`.
fn join_db(db: &mut MlesDb<u64, u64>, fresh: bool, has_peer: bool, cid: u64, msgs: &Vec<Vec<u8>>, tx: u64) -> (r:
    JoinActions)
    requires
        old(db).wf(),
        msgs@.len() >= 1,
    ensures
        final(db).wf(),
        db_view(*final(db)) == spec_join_db(db_view(*old(db)), fresh, has_peer, cid, frames_view(msgs@), tx).0,
        r.spawn_peer == spec_join_db(db_view(*old(db)), fresh, has_peer, cid, frames_view(msgs@), tx).1.spawn_peer,
        r.to_peer == spec_join_db(db_view(*old(db)), fresh, has_peer, cid, frames_view(msgs@), tx).1.to_peer,
        frames_view(r.replay@) == spec_join_db(db_view(*old(db)), fresh, has_peer, cid, frames_view(msgs@), tx).1.replay,
        r.targets@.to_set() == spec_join_db(db_view(*old(db)), fresh, has_peer, cid, frames_view(msgs@), tx).1.targets,
        r.targets@.no_duplicates(),
{
    let ghost d0 = db_view(*db);
    let ghost mv = frames_view(msgs@);
    let to_peer = if has_peer && !fresh {
        match db.get_peer_tx() {
            Some(p) => Some(*p),
            None => None,
        }
    } else {
        None
    };
    let spawn_peer = has_peer && (fresh || !db.check_peer());
    let replay = if !has_peer && !fresh {
        copy_history(db.get_messages())
    } else {
        Vec::new()
    };
    assert(frames_view(replay@) =~= spec_join_db(d0, fresh, has_peer, cid, mv, tx).1.replay);
    db.add_channel(cid, tx);
    let ghost d1 = db_view(*db);
    assert(conns_of(d1) =~= conns_of(d0).insert(cid, tx));
    let targets = targets(db.get_channels(), cid);
    assert(targets@.to_set() =~= targets_of(d1, cid));
    if !has_peer {
        if msgs.len() > 1 && db.get_messages_len() == 0 {
            let n = msgs.len();
            for j in 0..n
                invariant
                    n == msgs@.len(),
                    mv == frames_view(msgs@),
                    db.wf(),
                    db_view(*db) == (DbView { history: add_all(d1.history, d1.limit, mv.take(j as int)), ..d1 }),
            {
                let m = crate::msg::copy_bytes(&msgs[j]);
                proof {
                    assert(mv.take(j + 1).drop_last() =~= mv.take(j as int));
                    assert(mv.take(j + 1).last() == m@);
                }
                db.add_message(m);
            }
            assert(mv.take(n as int) =~= mv);
        } else {
            let m = crate::msg::copy_bytes(&msgs[0]);
            db.add_message(m);
        }
    }
    db.add_tx_db(tx);
    JoinActions { spawn_peer, to_peer, replay, targets }
}

impl Relay {
    /// Puts `db` back at position `i`, where it was taken from.
    fn put_back(&mut self, i: usize, name: String, db: MlesDb<u64, u64>)
        requires
            i <= old(self).dbs@.len(),
            user_names(old(self).dbs@.insert(i as int, (name, db))).no_duplicates(),
            forall|j: int| 0 <= j < old(self).dbs@.len() ==> #[trigger] old(self).dbs@[j].1.wf(),
            db.wf(),
        ensures
            final(self).dbs@ == old(self).dbs@.insert(i as int, (name, db)),
            final(self).conns == old(self).conns,
            final(self).hist_limit == old(self).hist_limit,
            final(self).has_peer == old(self).has_peer,
            final(self).wf(),
    {
        self.dbs.insert(i, (name, db));
        assert forall|j: int| 0 <= j < self.dbs@.len() implies #[trigger] self.dbs@[j].1.wf() by {
            if j < i {
                assert(self.dbs@[j] == old(self).dbs@[j]);
            } else if j > i {
                assert(self.dbs@[j] == old(self).dbs@[j - 1]);
            }
        }
    }

    /// Connection number `conn`, with connection id `cid` and sender `tx`,
    /// joins channel `ch` with the frames `msgs`; `None` when the channel
    /// already has a connection with that id.
    pub fn join(&mut self, conn: u64, ch: &str, cid: u64, msgs: &Vec<Vec<u8>>, tx: u64) -> (r: Option<
        JoinActions,
    >)
        requires
            old(self).wf(),
            msgs@.len() >= 1,
        ensures
            final(self).wf(),
            final(self)@ == spec_join(old(self)@, conn, ch@, cid, frames_view(msgs@), tx).0,
            r is None <==> spec_join(old(self)@, conn, ch@, cid, frames_view(msgs@), tx).1 is None,
            r matches Some(a) ==> {
                let jv = spec_join(old(self)@, conn, ch@, cid, frames_view(msgs@), tx).1->0;
                &&& a.spawn_peer == jv.spawn_peer
                &&& a.to_peer == jv.to_peer
                &&& frames_view(a.replay@) == jv.replay
                &&& a.targets@.to_set() == jv.targets
                &&& a.targets@.no_duplicates()
            },
    {
        let ghost v = self@;
        let ghost old_dbs = self.dbs@;
        let found = self.find_db(ch);
        let actions = match found {
            Some(i) => {
                if self.dbs[i].1.check_for_duplicate_cid(cid as u32) {
                    return None;
                }
                let (name, mut db) = self.dbs.remove(i);
                proof {
                    assert(old_dbs[i as int].1.wf());
                }
                let a = join_db(&mut db, false, self.has_peer, cid, msgs, tx);
                proof {
                    assert(old_dbs.remove(i as int).insert(i as int, (name, db)) =~= old_dbs.update(
                        i as int,
                        (old_dbs[i as int].0, db),
                    ));
                    lemma_users_map_update(old_dbs, i as int, db);
                    assert forall|j: int| 0 <= j < self.dbs@.len() implies #[trigger] self.dbs@[j].1.wf() by {
                        if j < i {
                            assert(self.dbs@[j] == old_dbs[j]);
                        } else {
                            assert(self.dbs@[j] == old_dbs[j + 1]);
                        }
                    }
                }
                self.put_back(i, name, db);
                proof {
                    lemma_views_insert(users_map(old_dbs), ch@, db);
                }
                a
            },
            None => {
                let mut db: MlesDb<u64, u64> = MlesDb::new(self.hist_limit);
                proof {
                    assert(db_view(db) == fresh_db(self.hist_limit as nat));
                }
                let a = join_db(&mut db, true, self.has_peer, cid, msgs, tx);
                let ghost before = self.dbs@;
                self.dbs.push((String::from_str(ch), db));
                proof {
                    assert(self.dbs@.drop_last() =~= before);
                    assert(user_names(self.dbs@) =~= user_names(before).push(ch@));
                    assert(user_names(self.dbs@).no_duplicates()) by {
                        assert forall|a: int, b: int| 0 <= a < b < user_names(self.dbs@).len() implies user_names(
                            self.dbs@,
                        )[a] != user_names(self.dbs@)[b] by {
                            if b == before.len() {
                                assert(user_names(before)[a] == user_names(self.dbs@)[a]);
                            } else {
                                assert(user_names(before)[a] == user_names(self.dbs@)[a]);
                                assert(user_names(before)[b] == user_names(self.dbs@)[b]);
                            }
                        }
                    }
                    assert forall|j: int| 0 <= j < self.dbs@.len() implies #[trigger] self.dbs@[j].1.wf() by {
                        if j < before.len() {
                            assert(self.dbs@[j] == before[j]);
                        }
                    }
                    lemma_views_insert(users_map(before), ch@, db);
                }
                a
            },
        };
        let ghost t0 = self.conns@;
        let entry = (cid, String::from_str(ch));
        let ghost e = entry;
        self.conns.insert(conn, entry);
        proof {
            lemma_conn_table(t0, conn, e);
            assert(self@.conns =~= v.conns.insert(conn, (cid, ch@)));
            assert(self@.dbs =~= spec_join(v, conn, ch@, cid, frames_view(msgs@), tx).0.dbs);
        }
        Some(actions)
    }
}

impl Relay {
    /// Takes the database at position `i` out, for a change.
    fn take_db(&mut self, i: usize) -> (r: (String, MlesDb<u64, u64>))
        requires
            old(self).wf(),
            i < old(self).dbs@.len(),
        ensures
            final(self).dbs@ == old(self).dbs@.remove(i as int),
            r == old(self).dbs@[i as int],
            r.1.wf(),
            final(self).conns == old(self).conns,
            final(self).hist_limit == old(self).hist_limit,
            final(self).has_peer == old(self).has_peer,
            forall|j: int| 0 <= j < final(self).dbs@.len() ==> #[trigger] final(self).dbs@[j].1.wf(),
            user_names(old(self).dbs@.remove(i as int).insert(i as int, (r.0, r.1))).no_duplicates(),
    {
        let ghost old_dbs = self.dbs@;
        let r = self.dbs.remove(i);
        proof {
            assert(old_dbs[i as int].1.wf());
            assert(old_dbs.remove(i as int).insert(i as int, r) =~= old_dbs);
            assert forall|j: int| 0 <= j < self.dbs@.len() implies #[trigger] self.dbs@[j].1.wf() by {
                if j < i {
                    assert(self.dbs@[j] == old_dbs[j]);
                } else {
                    assert(self.dbs@[j] == old_dbs[j + 1]);
                }
            }
        }
        r
    }

    /// Puts a changed database back where it was taken from.
    proof fn lemma_put_back_view(old_dbs: Seq<(String, MlesDb<u64, u64>)>, i: int, db: MlesDb<u64, u64>)
        requires
            0 <= i < old_dbs.len(),
            user_names(old_dbs).no_duplicates(),
        ensures
            old_dbs.remove(i).insert(i, (old_dbs[i].0, db)) == old_dbs.update(i, (old_dbs[i].0, db)),
            views_of(users_map(old_dbs.update(i, (old_dbs[i].0, db)))) == views_of(users_map(old_dbs)).insert(
                old_dbs[i].0@,
                db_view(db),
            ),
            user_names(old_dbs.update(i, (old_dbs[i].0, db))).no_duplicates(),
    {
        assert(old_dbs.remove(i).insert(i, (old_dbs[i].0, db)) =~= old_dbs.update(i, (old_dbs[i].0, db)));
        lemma_users_map_update(old_dbs, i, db);
        lemma_views_insert(users_map(old_dbs), old_dbs[i].0@, db);
    }

    /// A frame `msg` arrives from connection `cid` of channel `ch`: gives
    /// whether a peer connection is to be started and where the frame goes,
    /// `None` for an unknown channel.
    pub fn message(&mut self, ch: &str, cid: u64, msg: Vec<u8>) -> (r: Option<(bool, Vec<(u64, u64)>)>)
        requires
            old(self).wf(),
        ensures
            final(self).wf(),
            final(self)@ == spec_message(old(self)@, ch@, cid, msg@).0,
            r is None <==> spec_message(old(self)@, ch@, cid, msg@).1 is None,
            r matches Some((spawn, t)) ==> {
                let mv = spec_message(old(self)@, ch@, cid, msg@).1->0;
                &&& spawn == mv.spawn_peer
                &&& t@.to_set() == mv.targets
                &&& t@.no_duplicates()
            },
    {
        let ghost v = self@;
        let ghost old_dbs = self.dbs@;
        match self.find_db(ch) {
            None => None,
            Some(i) => {
                let (name, mut db) = self.take_db(i);
                let ghost d = db_view(db);
                let spawn = self.has_peer && !db.check_peer();
                let t = targets(db.get_channels(), cid);
                assert(t@.to_set() =~= targets_of(d, cid));
                if !self.has_peer {
                    db.add_message(msg);
                }
                proof {
                    Relay::lemma_put_back_view(old_dbs, i as int, db);
                }
                self.put_back(i, name, db);
                assert(self@.dbs =~= spec_message(v, ch@, cid, msg@).0.dbs);
                assert(self@.conns =~= v.conns);
                Some((spawn, t))
            },
        }
    }

    /// The peer connection of channel `ch` is up, with peer id `peer_cid`,
    /// the sender `peer_tx` of the peer's frames and the sender `tx_orig`
    /// that takes the channel's connections; gives the senders to hand to
    /// `tx_orig`.
    pub fn peer_up(&mut self, ch: &str, peer_cid: u64, peer_tx: u64, tx_orig: u64) -> (r: Vec<u64>)
        requires
            old(self).wf(),
        ensures
            final(self).wf(),
            final(self)@ == spec_peer_up(old(self)@, ch@, peer_cid, peer_tx, tx_orig).0,
            r@ == spec_peer_up(old(self)@, ch@, peer_cid, peer_tx, tx_orig).1,
    {
        let ghost v = self@;
        let ghost old_dbs = self.dbs@;
        match self.find_db(ch) {
            None => Vec::new(),
            Some(i) => {
                let (name, mut db) = self.take_db(i);
                let ghost d = db_view(db);
                db.add_channel(peer_cid, peer_tx);
                db.set_peer_tx(tx_orig);
                let txs = db.get_tx_db();
                let mut out: Vec<u64> = Vec::new();
                let n = txs.len();
                for j in 0..n
                    invariant
                        n == txs@.len(),
                        out@ == txs@.take(j as int),
                {
                    out.push(txs[j]);
                    assert(out@ =~= txs@.take(j + 1));
                }
                assert(out@ =~= d.txs);
                proof {
                    assert(conns_of(db_view(db)) =~= conns_of(d).insert(peer_cid, peer_tx));
                    Relay::lemma_put_back_view(old_dbs, i as int, db);
                }
                self.put_back(i, name, db);
                assert(self@.dbs =~= spec_peer_up(v, ch@, peer_cid, peer_tx, tx_orig).0.dbs);
                assert(self@.conns =~= v.conns);
                out
            },
        }
    }

    /// The peer connection `peer_cid` of channel `ch` is given up.
    pub fn peer_down(&mut self, ch: &str, peer_cid: u64)
        requires
            old(self).wf(),
        ensures
            final(self).wf(),
            final(self)@ == spec_peer_down(old(self)@, ch@, peer_cid),
    {
        let ghost v = self@;
        let ghost old_dbs = self.dbs@;
        match self.find_db(ch) {
            None => {
                assert(self@.dbs =~= v.dbs);
            },
            Some(i) => {
                let (name, mut db) = self.take_db(i);
                db.rem_channel(peer_cid);
                db.rem_peer_tx();
                db.rem_channel(clear_peer_cid(peer_cid));
                proof {
                    Relay::lemma_put_back_view(old_dbs, i as int, db);
                }
                self.put_back(i, name, db);
                assert(self@.dbs =~= spec_peer_down(v, ch@, peer_cid).dbs);
                assert(self@.conns =~= v.conns);
            },
        }
    }

    /// A send to connection `cid` of channel `ch` failed: the connection
    /// leaves the channel.
    pub fn drop_conn(&mut self, cid: u64, ch: &str)
        requires
            old(self).wf(),
        ensures
            final(self).wf(),
            final(self)@ == spec_drop_conn(old(self)@, cid, ch@),
    {
        let ghost v = self@;
        let ghost old_dbs = self.dbs@;
        match self.find_db(ch) {
            None => {
                assert(self@.dbs =~= v.dbs);
            },
            Some(i) => {
                let (name, mut db) = self.take_db(i);
                db.rem_channel(cid);
                proof {
                    Relay::lemma_put_back_view(old_dbs, i as int, db);
                }
                self.put_back(i, name, db);
                assert(self@.dbs =~= spec_drop_conn(v, cid, ch@).dbs);
                assert(self@.conns =~= v.conns);
            },
        }
    }

    /// Connection number `conn` closed.
    pub fn closed(&mut self, conn: u64)
        requires
            old(self).wf(),
        ensures
            final(self).wf(),
            final(self)@ == spec_closed(old(self)@, conn),
    {
        let ghost v = self@;
        let ghost old_dbs = self.dbs@;
        let (cid, ch) = match self.conns.get(&conn) {
            None => {
                assert(self@.dbs =~= v.dbs);
                return;
            },
            Some(e) => (e.0, e.1.clone()),
        };
        assert(v.conns.contains_key(conn));
        assert(v.conns[conn] == (cid, ch@));
        match self.find_db(ch.as_str()) {
            None => {},
            Some(i) => {
                let (name, mut db) = self.take_db(i);
                let ghost d = db_view(db);
                db.rem_channel(cid);
                let empty = db.get_channels_len() == 0;
                proof {
                    assert(conns_of(db_view(db)).len() == 0 <==> empty);
                }
                if empty {
                    db.clear_tx_db();
                }
                if empty && db.get_history_limit() == 0 {
                    proof {
                        lemma_users_map_remove(old_dbs, i as int);
                        lemma_views_insert(users_map(old_dbs), ch@, db);
                        assert forall|j: int| 0 <= j < self.dbs@.len() implies #[trigger] self.dbs@[j].1.wf() by {
                        }
                    }
                } else {
                    proof {
                        Relay::lemma_put_back_view(old_dbs, i as int, db);
                    }
                    self.put_back(i, name, db);
                }
                let ghost t0 = self.conns@;
                self.conns.remove(&cid);
                proof {
                    lemma_conn_table_remove(t0, cid);
                }
                assert(self@.dbs =~= spec_closed(v, conn).dbs);
                assert(self@.conns =~= spec_closed(v, conn).conns);
            },
        }
    }
}

// ---------------------------------------------------------------------------
// Laws of the relay
// ---------------------------------------------------------------------------

/// Every channel's history stays within its limit, whatever the relay was
/// asked to do.
pub proof fn lemma_relay_ok(r: &Relay)
    requires
        r.wf(),
    ensures
        relay_ok(r@),
{
    assert forall|c: Seq<char>| #[trigger] r@.dbs.contains_key(c) implies r@.dbs[c].history.len()
        <= r@.dbs[c].limit && conns_of(r@.dbs[c]).dom().finite() by {
        lemma_users_map_dom(r.dbs@, c);
        let names = user_names(r.dbs@);
        let i = choose|i: int| 0 <= i < names.len() && names[i] == c;
        assert(r.dbs@[i].0@ == c);
        lemma_users_map_at(r.dbs@, i);
        assert(r.dbs@[i].1.wf());
        r.dbs@[i].1.lemma_wf_history();
        match r.dbs@[i].1.spec_channels() {
            Some(m) => {
                r.dbs@[i].1.lemma_channels_finite();
            },
            None => {},
        }
    }
}

/// A frame never goes back to the connection that sent it, neither when it
/// joins nor after.
pub proof fn lemma_no_echo(v: RelayView, conn: u64, ch: Seq<char>, cid: u64, msgs: Seq<Seq<u8>>, tx: u64, msg: Seq<u8>, p: (u64, u64))
    ensures
        spec_join(v, conn, ch, cid, msgs, tx).1 matches Some(jv) && jv.targets.contains(p) ==> p.0 != cid,
        spec_message(v, ch, cid, msg).1 matches Some(mv) && mv.targets.contains(p) ==> p.0 != cid,
{
}

/// A connection that joins is in its channel; a connection that closes
/// leaves it.
pub proof fn lemma_join_close_membership(v: RelayView, conn: u64, ch: Seq<char>, cid: u64, msgs: Seq<Seq<u8>>, tx: u64)
    ensures
        spec_join(v, conn, ch, cid, msgs, tx).1 is Some ==> conns_of(
            spec_join(v, conn, ch, cid, msgs, tx).0.dbs[ch],
        ).contains_key(cid),
        v.conns.contains_key(conn) && v.conns[conn] == (cid, ch) && spec_closed(v, conn).dbs.contains_key(ch)
            ==> !conns_of(spec_closed(v, conn).dbs[ch]).contains_key(cid),
{
}

/// Without a peer server, a frame sent to a channel with a history limit
/// of at least 1 is replayed last to the next connection that joins it.
pub proof fn lemma_history_replayed(
    v: RelayView,
    ch: Seq<char>,
    cid: u64,
    msg: Seq<u8>,
    conn2: u64,
    cid2: u64,
    msgs2: Seq<Seq<u8>>,
    tx2: u64,
)
    requires
        relay_ok(v),
        !v.has_peer,
        v.dbs.contains_key(ch),
        v.dbs[ch].limit >= 1,
        !conns_of(v.dbs[ch]).contains_key(cid2 as u32 as u64),
    ensures
        spec_join(spec_message(v, ch, cid, msg).0, conn2, ch, cid2, msgs2, tx2).1 matches Some(jv)
            && jv.replay.len() > 0 && jv.replay.last() == msg,
{
    let d = v.dbs[ch];
    crate::local_db::lemma_history_bounded(d.history, d.limit, msg);
}

} // verus!
