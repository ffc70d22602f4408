//! Counters of the server's activity: connections, messages, channels,
//! errors, and connections dropped by per-IP limiting.
use vstd::prelude::*;

verus! {

/// The count that `entries` holds for `ip`.
pub open spec fn ip_lookup(entries: Seq<(String, u64)>, ip: Seq<char>) -> Option<u64>
    decreases entries.len(),
{
    if entries.len() == 0 {
        None
    } else if entries.last().0@ == ip {
        Some(entries.last().1)
    } else {
        ip_lookup(entries.drop_last(), ip)
    }
}

/// No address occurs twice in `entries`.
pub open spec fn ips_unique(entries: Seq<(String, u64)>) -> bool {
    forall|i: int, j: int|
        0 <= i < entries.len() && 0 <= j < entries.len() && i != j ==> entries[i].0@
            != entries[j].0@
}

/// The count held at a position is the count for its address.
proof fn lemma_ip_lookup_at(entries: Seq<(String, u64)>, i: int)
    requires
        ips_unique(entries),
        0 <= i < entries.len(),
    ensures
        ip_lookup(entries, entries[i].0@) == Some(entries[i].1),
    decreases entries.len(),
{
    if i != entries.len() - 1 {
        assert(entries.last().0@ != entries[i].0@);
        assert(entries.drop_last()[i] == entries[i]);
        lemma_ip_lookup_at(entries.drop_last(), i);
    }
}

/// An address that occurs nowhere has no count.
proof fn lemma_ip_lookup_absent(entries: Seq<(String, u64)>, ip: Seq<char>)
    requires
        forall|i: int| 0 <= i < entries.len() ==> entries[i].0@ != ip,
    ensures
        ip_lookup(entries, ip) is None,
    decreases entries.len(),
{
    if entries.len() != 0 {
        assert(entries.last().0@ != ip);
        lemma_ip_lookup_absent(entries.drop_last(), ip);
    }
}

/// Where an address occurs tells its count apart from all others.
proof fn lemma_ip_lookup_other(entries: Seq<(String, u64)>, i: int, ip: Seq<char>)
    requires
        0 <= i < entries.len(),
        entries[i].0@ != ip,
    ensures
        forall|c: u64|
            #![trigger entries.update(i, (entries[i].0, c))]
            ip_lookup(entries.update(i, (entries[i].0, c)), ip) == ip_lookup(entries, ip),
    decreases entries.len(),
{
    assert forall|c: u64| #![trigger entries.update(i, (entries[i].0, c))]
        ip_lookup(entries.update(i, (entries[i].0, c)), ip) == ip_lookup(entries, ip) by {
        let u = entries.update(i, (entries[i].0, c));
        if i == entries.len() - 1 {
            assert(u.drop_last() =~= entries.drop_last());
        } else {
            lemma_ip_lookup_other(entries.drop_last(), i, ip);
            assert(u.drop_last() =~= entries.drop_last().update(i, (entries[i].0, c)));
            assert(entries.drop_last()[i] == entries[i]);
        }
    }
}

/// The sum of the counts in `entries`.
pub open spec fn ip_sum(entries: Seq<(String, u64)>) -> int
    decreases entries.len(),
{
    if entries.len() == 0 {
        0
    } else {
        ip_sum(entries.drop_last()) + entries.last().1
    }
}

/// Changing one count changes the sum by the difference.
proof fn lemma_ip_sum_update(entries: Seq<(String, u64)>, i: int, c: u64)
    requires
        0 <= i < entries.len(),
    ensures
        ip_sum(entries.update(i, (entries[i].0, c))) == ip_sum(entries) - entries[i].1 + c,
    decreases entries.len(),
{
    let u = entries.update(i, (entries[i].0, c));
    if i == entries.len() - 1 {
        assert(u.drop_last() =~= entries.drop_last());
    } else {
        assert(u.drop_last() =~= entries.drop_last().update(i, (entries[i].0, c)));
        assert(entries.drop_last()[i] == entries[i]);
        lemma_ip_sum_update(entries.drop_last(), i, c);
    }
}

/// No single count exceeds the sum.
proof fn lemma_ip_sum_bounds(entries: Seq<(String, u64)>, i: int)
    requires
        0 <= i < entries.len(),
    ensures
        entries[i].1 <= ip_sum(entries),
    decreases entries.len(),
{
    lemma_ip_sum_nonneg(entries.drop_last());
    if i != entries.len() - 1 {
        assert(entries.drop_last()[i] == entries[i]);
        lemma_ip_sum_bounds(entries.drop_last(), i);
    }
}

/// A sum of counts is not negative.
proof fn lemma_ip_sum_nonneg(entries: Seq<(String, u64)>)
    ensures
        ip_sum(entries) >= 0,
    decreases entries.len(),
{
    if entries.len() != 0 {
        lemma_ip_sum_nonneg(entries.drop_last());
    }
}

/// The count that `ip_lookup` finds sits at some position.
proof fn lemma_ip_lookup_found(entries: Seq<(String, u64)>, ip: Seq<char>)
    requires
        ip_lookup(entries, ip) is Some,
    ensures
        exists|i: int| 0 <= i < entries.len() && entries[i].1 == ip_lookup(entries, ip)->0,
    decreases entries.len(),
{
    if entries.last().0@ != ip {
        lemma_ip_lookup_found(entries.drop_last(), ip);
        let i = choose|i: int|
            0 <= i < entries.drop_last().len() && entries.drop_last()[i].1 == ip_lookup(
                entries.drop_last(),
                ip,
            )->0;
        assert(entries[i] == entries.drop_last()[i]);
    } else {
        assert(entries[entries.len() - 1].1 == ip_lookup(entries, ip)->0);
    }
}

/// Connection drop counts by source address.
pub struct IpCounts {
    entries: Vec<(String, u64)>,
}

impl IpCounts {
    /// The count for address `ip`, if it has one.
    pub closed spec fn count(&self, ip: Seq<char>) -> Option<u64> {
        ip_lookup(self.entries@, ip)
    }

    /// The number of addresses with a count.
    pub closed spec fn spec_len(&self) -> nat {
        self.entries@.len()
    }

    /// The sum of all counts.
    pub closed spec fn total(&self) -> int {
        ip_sum(self.entries@)
    }

    /// A count never exceeds the sum of all counts, which is not negative.
    pub proof fn lemma_count_le_total(&self, ip: Seq<char>)
        ensures
            self.total() >= 0,
            self.count(ip) is Some ==> self.count(ip)->0 <= self.total(),
    {
        lemma_ip_sum_nonneg(self.entries@);
        if self.count(ip) is Some {
            lemma_ip_lookup_found(self.entries@, ip);
            let i = choose|i: int|
                0 <= i < self.entries@.len() && self.entries@[i].1 == ip_lookup(self.entries@, ip)->0;
            lemma_ip_sum_bounds(self.entries@, i);
        }
    }

    /// Each address has at most one entry.
    pub closed spec fn wf(&self) -> bool {
        ips_unique(self.entries@)
    }

    /// No counts.
    pub fn new() -> (r: IpCounts)
        ensures
            r.wf(),
            r.spec_len() == 0,
            r.total() == 0,
            forall|ip: Seq<char>| r.count(ip) is None,
    {
        IpCounts { entries: Vec::new() }
    }

    /// The count for address `ip`.
    pub fn get(&self, ip: &str) -> (r: Option<&u64>)
        requires
            self.wf(),
        ensures
            (match r {
                Some(c) => Some(*c),
                None => None,
            }) == self.count(ip@),
    {
        let n = self.entries.len();
        for i in 0..n
            invariant
                n == self.entries@.len(),
                ips_unique(self.entries@),
                forall|j: int| 0 <= j < i ==> self.entries@[j].0@ != ip@,
        {
            if crate::text::str_eq(self.entries[i].0.as_str(), ip) {
                proof {
                    lemma_ip_lookup_at(self.entries@, i as int);
                }
                return Some(&self.entries[i].1);
            }
        }
        proof {
            lemma_ip_lookup_absent(self.entries@, ip@);
        }
        None
    }

    /// The number of addresses with a count.
    pub fn len(&self) -> (r: usize)
        ensures
            r == self.spec_len(),
    {
        self.entries.len()
    }

    /// Adds one to the count for `ip`, saturating at the top value; an
    /// address without a count gets 1.
    pub fn increment(&mut self, ip: &str)
        requires
            old(self).wf(),
        ensures
            final(self).wf(),
            final(self).count(ip@) == Some(
                match old(self).count(ip@) {
                    Some(c) => if c == u64::MAX {
                        c
                    } else {
                        (c + 1) as u64
                    },
                    None => 1u64,
                },
            ),
            forall|other: Seq<char>| other != ip@ ==> final(self).count(other) == old(self).count(other),
            final(self).spec_len() == old(self).spec_len() + (if old(self).count(ip@) is Some {
                0int
            } else {
                1int
            }),
            final(self).total() == old(self).total() + (match old(self).count(ip@) {
                Some(c) => if c == u64::MAX {
                    0int
                } else {
                    1int
                },
                None => 1int,
            }),
    {
        let n = self.entries.len();
        for i in 0..n
            invariant
                n == self.entries@.len(),
                self.entries@ == old(self).entries@,
                ips_unique(self.entries@),
                forall|j: int| 0 <= j < i ==> self.entries@[j].0@ != ip@,
        {
            if crate::text::str_eq(self.entries[i].0.as_str(), ip) {
                let c = self.entries[i].1;
                let nc = c.saturating_add(1);
                let key = self.entries[i].0.clone();
                let ghost before = self.entries@;
                proof {
                    lemma_ip_lookup_at(before, i as int);
                }
                self.entries.set(i, (key, nc));
                proof {
                    assert(self.entries@ == before.update(i as int, (before[i as int].0, nc)));
                    lemma_ip_lookup_at(self.entries@, i as int);
                    lemma_ip_sum_update(before, i as int, nc);
                    assert forall|other: Seq<char>| other != ip@ implies self.count(other) == old(
                        self,
                    ).count(other) by {
                        lemma_ip_lookup_other(before, i as int, other);
                        assert(before.update(i as int, (before[i as int].0, nc)) == self.entries@);
                    }
                }
                return;
            }
        }
        let ghost before = self.entries@;
        proof {
            lemma_ip_lookup_absent(before, ip@);
        }
        self.entries.push((ip.to_owned(), 1u64));
        proof {
            assert(self.entries@.drop_last() =~= before);
            assert(ip_sum(self.entries@) == ip_sum(before) + 1);
            assert forall|other: Seq<char>| other != ip@ implies self.count(other) == old(
                self,
            ).count(other) by {}
        }
    }

    /// A copy of the counts.
    pub fn copy(&self) -> (r: IpCounts)
        ensures
            r.spec_len() == self.spec_len(),
            r.total() == self.total(),
            self.wf() ==> r.wf(),
            forall|ip: Seq<char>| r.count(ip) == self.count(ip),
    {
        let mut entries: Vec<(String, u64)> = Vec::new();
        let n = self.entries.len();
        let mut i: usize = 0;
        while i < n
            invariant
                i <= n,
                n == self.entries@.len(),
                entries@.len() == i,
                forall|j: int|
                    0 <= j < i ==> #[trigger] entries@[j].0@ == self.entries@[j].0@
                        && entries@[j].1 == self.entries@[j].1,
            decreases n - i,
        {
            let e = &self.entries[i];
            let ghost prev = entries@;
            let k = e.0.clone();
            assert(k@ == self.entries@[i as int].0@);
            entries.push((k, e.1));
            assert(entries@ == prev.push(entries@[i as int]));
            assert forall|j: int| 0 <= j < i + 1 implies #[trigger] entries@[j].0@ == self.entries@[j].0@
                && entries@[j].1 == self.entries@[j].1 by {
                if j < i {
                    assert(entries@[j] == prev[j]);
                    assert(prev[j].0@ == self.entries@[j].0@);
                }
            }
            i = i + 1;
        }
        let r = IpCounts { entries };
        proof {
            lemma_ip_sum_same(r.entries@, self.entries@);
            assert forall|ip: Seq<char>| r.count(ip) == self.count(ip) by {
                lemma_ip_lookup_same(r.entries@, self.entries@, ip);
            }
        }
        r
    }
}

/// Two lists with the same counts have the same sum.
proof fn lemma_ip_sum_same(a: Seq<(String, u64)>, b: Seq<(String, u64)>)
    requires
        a.len() == b.len(),
        forall|j: int| 0 <= j < a.len() ==> #[trigger] a[j].0@ == b[j].0@ && a[j].1 == b[j].1,
    ensures
        ip_sum(a) == ip_sum(b),
    decreases a.len(),
{
    if a.len() != 0 {
        assert(a.last().0@ == b.last().0@);
        assert(a.last().1 == b.last().1);
        lemma_ip_sum_same(a.drop_last(), b.drop_last());
    }
}

/// Two lists with the same addresses and counts give the same counts.
proof fn lemma_ip_lookup_same(a: Seq<(String, u64)>, b: Seq<(String, u64)>, ip: Seq<char>)
    requires
        a.len() == b.len(),
        forall|j: int| 0 <= j < a.len() ==> #[trigger] a[j].0@ == b[j].0@ && a[j].1 == b[j].1,
    ensures
        ip_lookup(a, ip) == ip_lookup(b, ip),
    decreases a.len(),
{
    if a.len() != 0 {
        assert(a.last().0@ == b.last().0@);
        lemma_ip_lookup_same(a.drop_last(), b.drop_last(), ip);
    }
}

/// The server's activity counters.
pub struct Metrics {
    active_connections: usize,
    total_messages_sent: u64,
    total_messages_received: u64,
    total_channels: usize,
    total_errors: u64,
    total_dropped_connections: u64,
    dropped_by_ip: IpCounts,
    drop_total_wrapped: Ghost<bool>,
}

/// What the counters hold.
pub struct MetricsView {
    pub active_connections: usize,
    pub total_messages_sent: u64,
    pub total_messages_received: u64,
    pub total_channels: usize,
    pub total_errors: u64,
    pub total_dropped_connections: u64,
}

/// A snapshot of the counters.
pub struct MetricsSnapshot {
    pub active_connections: usize,
    pub total_messages_sent: u64,
    pub total_messages_received: u64,
    pub total_channels: usize,
    pub total_errors: u64,
    pub total_dropped_connections: u64,
    pub dropped_by_ip: IpCounts,
}

impl View for Metrics {
    type V = MetricsView;

    closed spec fn view(&self) -> MetricsView {
        MetricsView {
            active_connections: self.active_connections,
            total_messages_sent: self.total_messages_sent,
            total_messages_received: self.total_messages_received,
            total_channels: self.total_channels,
            total_errors: self.total_errors,
            total_dropped_connections: self.total_dropped_connections,
        }
    }
}

impl Metrics {
    /// The drop count for address `ip`.
    pub closed spec fn dropped(&self, ip: Seq<char>) -> Option<u64> {
        self.dropped_by_ip.count(ip)
    }

    /// Whether the total of dropped connections has ever wrapped past the top
    /// value.
    pub closed spec fn drop_total_wrapped(&self) -> bool {
        self.drop_total_wrapped@
    }

    /// The per-address counts are well formed, and until the total of
    /// dropped connections wraps, it is the sum of the per-address counts.
    pub closed spec fn wf(&self) -> bool {
        &&& self.dropped_by_ip.wf()
        &&& !self.drop_total_wrapped@ ==> self.dropped_by_ip.total() == self.total_dropped_connections
    }

    /// The number of addresses with a drop count.
    pub closed spec fn dropped_len(&self) -> nat {
        self.dropped_by_ip.spec_len()
    }

    /// The sum of the per-address drop counts.
    pub closed spec fn dropped_sum(&self) -> int {
        self.dropped_by_ip.total()
    }

    /// The total of dropped connections is the sum of the per-address counts.
    pub open spec fn drops_agree(&self) -> bool {
        self.dropped_sum() == self@.total_dropped_connections
    }

    /// All counters at zero.
    pub fn new() -> (r: Metrics)
        ensures
            r.wf(),
            r@ == (MetricsView {
                active_connections: 0,
                total_messages_sent: 0,
                total_messages_received: 0,
                total_channels: 0,
                total_errors: 0,
                total_dropped_connections: 0,
            }),
            forall|ip: Seq<char>| r.dropped(ip) is None,
            r.dropped_len() == 0,
            r.drops_agree(),
            !r.drop_total_wrapped(),
    {
        Metrics {
            active_connections: 0,
            total_messages_sent: 0,
            total_messages_received: 0,
            total_channels: 0,
            total_errors: 0,
            total_dropped_connections: 0,
            dropped_by_ip: IpCounts::new(),
            drop_total_wrapped: Ghost(false),
        }
    }

    /// A snapshot of the counters.
    pub fn get_stats(&self) -> (r: MetricsSnapshot)
        ensures
            r.active_connections == self@.active_connections,
            r.total_messages_sent == self@.total_messages_sent,
            r.total_messages_received == self@.total_messages_received,
            r.total_channels == self@.total_channels,
            r.total_errors == self@.total_errors,
            r.total_dropped_connections == self@.total_dropped_connections,
            self.wf() ==> r.dropped_by_ip.wf(),
            forall|ip: Seq<char>| r.dropped_by_ip.count(ip) == self.dropped(ip),
            r.dropped_by_ip.spec_len() == self.dropped_len(),
            r.dropped_by_ip.total() == self.dropped_sum(),
            self.drops_agree() ==> r.dropped_by_ip.total() == r.total_dropped_connections,
            self.wf() && !self.drop_total_wrapped() ==> r.dropped_by_ip.total()
                == r.total_dropped_connections,
    {
        MetricsSnapshot {
            active_connections: self.active_connections,
            total_messages_sent: self.total_messages_sent,
            total_messages_received: self.total_messages_received,
            total_channels: self.total_channels,
            total_errors: self.total_errors,
            total_dropped_connections: self.total_dropped_connections,
            dropped_by_ip: self.dropped_by_ip.copy(),
        }
    }

    /// Counts a new connection, wrapping at the top value.
    pub fn increment_connections(&mut self)
        ensures
            final(self)@ == (MetricsView {
                active_connections: old(self)@.active_connections.wrapping_add(1),
                ..old(self)@
            }),
            final(self).wf() == old(self).wf(),
            forall|ip: Seq<char>| final(self).dropped(ip) == old(self).dropped(ip),
            final(self).dropped_len() == old(self).dropped_len(),
            final(self).dropped_sum() == old(self).dropped_sum(),
            final(self).drop_total_wrapped() == old(self).drop_total_wrapped(),
    {
        self.active_connections = self.active_connections.wrapping_add(1);
    }

    /// Counts a closed connection, wrapping below 0.
    pub fn decrement_connections(&mut self)
        ensures
            final(self)@ == (MetricsView {
                active_connections: old(self)@.active_connections.wrapping_sub(1),
                ..old(self)@
            }),
            final(self).wf() == old(self).wf(),
            forall|ip: Seq<char>| final(self).dropped(ip) == old(self).dropped(ip),
            final(self).dropped_len() == old(self).dropped_len(),
            final(self).dropped_sum() == old(self).dropped_sum(),
            final(self).drop_total_wrapped() == old(self).drop_total_wrapped(),
    {
        self.active_connections = self.active_connections.wrapping_sub(1);
    }

    /// Counts a sent message, wrapping at the top value.
    pub fn increment_messages_sent(&mut self)
        ensures
            final(self)@ == (MetricsView {
                total_messages_sent: old(self)@.total_messages_sent.wrapping_add(1),
                ..old(self)@
            }),
            final(self).wf() == old(self).wf(),
            forall|ip: Seq<char>| final(self).dropped(ip) == old(self).dropped(ip),
            final(self).dropped_len() == old(self).dropped_len(),
            final(self).dropped_sum() == old(self).dropped_sum(),
            final(self).drop_total_wrapped() == old(self).drop_total_wrapped(),
    {
        self.total_messages_sent = self.total_messages_sent.wrapping_add(1);
    }

    /// Counts a received message, wrapping at the top value.
    pub fn increment_messages_received(&mut self)
        ensures
            final(self)@ == (MetricsView {
                total_messages_received: old(self)@.total_messages_received.wrapping_add(1),
                ..old(self)@
            }),
            final(self).wf() == old(self).wf(),
            forall|ip: Seq<char>| final(self).dropped(ip) == old(self).dropped(ip),
            final(self).dropped_len() == old(self).dropped_len(),
            final(self).dropped_sum() == old(self).dropped_sum(),
            final(self).drop_total_wrapped() == old(self).drop_total_wrapped(),
    {
        self.total_messages_received = self.total_messages_received.wrapping_add(1);
    }

    /// Counts an error, wrapping at the top value.
    pub fn increment_errors(&mut self)
        ensures
            final(self)@ == (MetricsView {
                total_errors: old(self)@.total_errors.wrapping_add(1),
                ..old(self)@
            }),
            final(self).wf() == old(self).wf(),
            forall|ip: Seq<char>| final(self).dropped(ip) == old(self).dropped(ip),
            final(self).dropped_len() == old(self).dropped_len(),
            final(self).dropped_sum() == old(self).dropped_sum(),
            final(self).drop_total_wrapped() == old(self).drop_total_wrapped(),
    {
        self.total_errors = self.total_errors.wrapping_add(1);
    }

    /// Sets the channel count.
    pub fn update_channel_count(&mut self, count: usize)
        ensures
            final(self)@ == (MetricsView { total_channels: count, ..old(self)@ }),
            final(self).wf() == old(self).wf(),
            forall|ip: Seq<char>| final(self).dropped(ip) == old(self).dropped(ip),
            final(self).dropped_len() == old(self).dropped_len(),
            final(self).dropped_sum() == old(self).dropped_sum(),
            final(self).drop_total_wrapped() == old(self).drop_total_wrapped(),
    {
        self.total_channels = count;
    }

    /// Counts a connection dropped from address `ip`: its own count saturates
    /// at the top value, the total wraps.
    pub fn increment_dropped_by_ip(&mut self, ip: &str)
        requires
            old(self).wf(),
        ensures
            final(self).wf(),
            final(self)@ == (MetricsView {
                total_dropped_connections: old(self)@.total_dropped_connections.wrapping_add(1),
                ..old(self)@
            }),
            final(self).dropped(ip@) == Some(
                match old(self).dropped(ip@) {
                    Some(c) => if c == u64::MAX {
                        c
                    } else {
                        (c + 1) as u64
                    },
                    None => 1u64,
                },
            ),
            forall|other: Seq<char>|
                other != ip@ ==> final(self).dropped(other) == old(self).dropped(other),
            final(self).dropped_len() == old(self).dropped_len() + (if old(self).dropped(ip@) is Some {
                0int
            } else {
                1int
            }),
            old(self).drops_agree() && old(self)@.total_dropped_connections < u64::MAX
                ==> final(self).drops_agree(),
            final(self).drop_total_wrapped() == (old(self).drop_total_wrapped()
                || old(self)@.total_dropped_connections == u64::MAX),
    {
        proof {
            self.dropped_by_ip.lemma_count_le_total(ip@);
        }
        proof {
            self.drop_total_wrapped@ = self.drop_total_wrapped@ || self.total_dropped_connections
                == u64::MAX;
        }
        self.dropped_by_ip.increment(ip);
        self.total_dropped_connections = self.total_dropped_connections.wrapping_add(1);
    }
}

/// The total of dropped connections is the sum of the per-address drop
/// counts, for every value that `Metrics::new` builds and its methods change,
/// as long as that total has never wrapped past the top value: `new` starts
/// in agreement, `increment_dropped_by_ip` keeps it while the total is below
/// the top value, and every other method changes neither side.
pub proof fn lemma_drops_agree(m: &Metrics)
    requires
        m.wf(),
        !m.drop_total_wrapped(),
    ensures
        m.drops_agree(),
{
}

} // verus!
