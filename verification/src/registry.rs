//! Registries of the relay's shared state.
//!
//! Three tables back the control plane and the data path: TCP
//! connection metrics keyed by connection-id, UDP association metrics
//! keyed by client address, and the set of live relay rules keyed by
//! the rule's local-address string. Each is a unique-key association
//! list whose operations say exactly which entry changed; every other
//! entry is untouched.

use vstd::prelude::*;
use crate::addr::SockAddr;
use crate::monitor::{ConnectionMetrics, spec_calculate_speed};

verus! {

/// Pairwise-distinct keys in a string-keyed entry list.
pub open spec fn str_keys_unique(s: Seq<(Seq<char>, ConnectionMetrics)>) -> bool {
    forall|i: int, j: int| 0 <= i < j < s.len() ==> s[i].0 != s[j].0
}

/// Some entry carries key `k`.
pub open spec fn str_contains_key(s: Seq<(Seq<char>, ConnectionMetrics)>, k: Seq<char>) -> bool {
    exists|i: int| 0 <= i < s.len() && s[i].0 == k
}

/// The index of the entry carrying `k`.
pub open spec fn str_index_of(s: Seq<(Seq<char>, ConnectionMetrics)>, k: Seq<char>) -> int {
    choose|i: int| 0 <= i < s.len() && s[i].0 == k
}

/// The metrics stored under `k`, if any.
pub open spec fn str_lookup(s: Seq<(Seq<char>, ConnectionMetrics)>, k: Seq<char>) -> Option<
    ConnectionMetrics,
> {
    if str_contains_key(s, k) {
        Some(s[str_index_of(s, k)].1)
    } else {
        None
    }
}

/// With unique keys, an entry holding `k` at index `i` is the entry
/// the lookup functions speak of.
pub proof fn lemma_str_index_of_unique(
    s: Seq<(Seq<char>, ConnectionMetrics)>,
    k: Seq<char>,
    i: int,
)
    requires
        str_keys_unique(s),
        0 <= i < s.len(),
        s[i].0 == k,
    ensures
        str_contains_key(s, k),
        str_index_of(s, k) == i,
        str_lookup(s, k) == Some(s[i].1),
{
    assert(str_contains_key(s, k));
    let i0 = str_index_of(s, k);
    if i0 < i {
        assert(s[i0].0 != s[i].0);
    } else if i0 > i {
        assert(s[i].0 != s[i0].0);
    }
}

/// Metrics of live TCP connections, keyed by connection-id.
///
/// Entries are inserted just before a connection's bidirectional copy
/// begins and removed when it returns.
pub struct TcpMetricsTable {
    entries: Vec<(String, ConnectionMetrics)>,
}

impl View for TcpMetricsTable {
    type V = Seq<(Seq<char>, ConnectionMetrics)>;

    closed spec fn view(&self) -> Seq<(Seq<char>, ConnectionMetrics)> {
        self.entries@.map_values(|e: (String, ConnectionMetrics)| (e.0@, e.1))
    }
}

impl TcpMetricsTable {
    /// All keys distinct: the table is a map.
    pub open spec fn wf(&self) -> bool {
        str_keys_unique(self@)
    }

    pub fn new() -> (r: TcpMetricsTable)
        ensures
            r@ == Seq::<(Seq<char>, ConnectionMetrics)>::empty(),
            r.wf(),
    {
        let t = TcpMetricsTable { entries: Vec::new() };
        proof {
            assert(t@ =~= Seq::<(Seq<char>, ConnectionMetrics)>::empty());
        }
        t
    }

    pub fn len(&self) -> (r: usize)
        ensures
            r == self@.len(),
    {
        self.entries.len()
    }

    /// The entry at position `i`, for taking a snapshot of the table.
    pub fn entry_at(&self, i: usize) -> (r: (String, ConnectionMetrics))
        requires
            i < self@.len(),
        ensures
            (r.0@, r.1) == self@[i as int],
    {
        let e = &self.entries[i];
        (e.0.clone(), e.1)
    }

    /// The index of the entry keyed `id`, if any.
    fn position(&self, id: &String) -> (r: Option<usize>)
        ensures
            match r {
                Some(i) => i < self@.len() && self@[i as int].0 == id@,
                None => !str_contains_key(self@, id@),
            },
    {
        let n = self.entries.len();
        let mut i: usize = 0;
        while i < n
            invariant
                0 <= i <= n,
                n == self@.len(),
                self@.len() == self.entries@.len(),
                forall|j: int| 0 <= j < i ==> self@[j].0 != id@,
            decreases n - i,
        {
            if self.entries[i].0 == *id {
                return Some(i);
            }
            i = i + 1;
        }
        None
    }

    pub fn contains(&self, id: &String) -> (r: bool)
        requires
            self.wf(),
        ensures
            r == str_contains_key(self@, id@),
    {
        match self.position(id) {
            Some(i) => {
                proof {
                    lemma_str_index_of_unique(self@, id@, i as int);
                }
                true
            },
            None => false,
        }
    }

    /// The metrics stored under `id`, or `None` when the id is
    /// unknown.
    pub fn get(&self, id: &String) -> (r: Option<ConnectionMetrics>)
        requires
            self.wf(),
        ensures
            r == str_lookup(self@, id@),
            r is Some <==> str_contains_key(self@, id@),
    {
        match self.position(id) {
            Some(i) => {
                proof {
                    lemma_str_index_of_unique(self@, id@, i as int);
                }
                Some(self.entries[i].1)
            },
            None => None,
        }
    }

    /// Add an entry under a new id. Returns `false` and leaves the
    /// table unchanged when the id is already present.
    pub fn try_insert(&mut self, id: String, m: ConnectionMetrics) -> (r: bool)
        requires
            old(self).wf(),
        ensures
            final(self).wf(),
            r == !str_contains_key(old(self)@, id@),
            r ==> final(self)@ == old(self)@.push((id@, m)),
            !r ==> final(self)@ == old(self)@,
            str_lookup(final(self)@, id@) is Some,
            forall|k: Seq<char>| k != id@ ==> str_lookup(final(self)@, k) == str_lookup(
                old(self)@,
                k,
            ),
    {
        match self.position(&id) {
            Some(i) => {
                proof {
                    lemma_str_index_of_unique(self@, id@, i as int);
                }
                false
            },
            None => {
                let ghost prev = self@;
                let ghost key = id@;
                self.entries.push((id, m));
                proof {
                    assert(self@ =~= prev.push((key, m)));
                    assert(self@[prev.len() as int].0 == key);
                    lemma_str_index_of_unique(self@, key, prev.len() as int);
                    assert forall|k: Seq<char>| k != key implies str_lookup(self@, k)
                        == str_lookup(prev, k) by {
                        if str_contains_key(prev, k) {
                            let i = str_index_of(prev, k);
                            assert(self@[i].0 == k);
                            lemma_str_index_of_unique(self@, k, i);
                            lemma_str_index_of_unique(prev, k, i);
                        } else if str_contains_key(self@, k) {
                            let i = str_index_of(self@, k);
                            assert(self@[i].0 == k);
                            assert(0 <= i < prev.len());
                            assert(prev[i].0 == k);
                        }
                    }
                }
                true
            },
        }
    }

    /// Overwrite the metrics stored under `id`. Returns `false` and
    /// changes nothing when the id is unknown.
    pub fn set(&mut self, id: &String, m: ConnectionMetrics) -> (r: bool)
        requires
            old(self).wf(),
        ensures
            final(self).wf(),
            r == str_contains_key(old(self)@, id@),
            r ==> str_lookup(final(self)@, id@) == Some(m),
            r ==> final(self)@ == old(self)@.update(str_index_of(old(self)@, id@), (id@, m)),
            !r ==> final(self)@ == old(self)@,
            final(self)@.len() == old(self)@.len(),
            forall|k: Seq<char>| k != id@ ==> str_lookup(final(self)@, k) == str_lookup(
                old(self)@,
                k,
            ),
            forall|k: Seq<char>|
                str_contains_key(final(self)@, k) == str_contains_key(old(self)@, k),
    {
        match self.position(id) {
            Some(i) => {
                let ghost prev = self@;
                let ghost key = id@;
                self.entries.remove(i);
                self.entries.insert(i, (id.clone(), m));
                proof {
                    lemma_str_index_of_unique(prev, key, i as int);
                    assert(self@ =~= prev.update(i as int, (key, m)));
                    assert forall|a: int, b: int| 0 <= a < b < self@.len() implies self@[a].0
                        != self@[b].0 by {
                        assert(prev[a].0 != prev[b].0);
                    }
                    lemma_str_index_of_unique(self@, key, i as int);
                    assert forall|k: Seq<char>| k != key implies str_lookup(self@, k)
                        == str_lookup(prev, k) by {
                        if str_contains_key(prev, k) {
                            let j = str_index_of(prev, k);
                            assert(prev[j].0 == k);
                            assert(j != i);
                            assert(self@[j].0 == k);
                            lemma_str_index_of_unique(self@, k, j);
                            lemma_str_index_of_unique(prev, k, j);
                        } else if str_contains_key(self@, k) {
                            let j = str_index_of(self@, k);
                            assert(self@[j].0 == k);
                            assert(j != i);
                            assert(prev[j].0 == k);
                        }
                    }
                    assert forall|k: Seq<char>|
                        str_contains_key(self@, k) == str_contains_key(prev, k) by {
                        if str_contains_key(prev, k) {
                            let j = str_index_of(prev, k);
                            if j == i {
                                assert(self@[j].0 == key);
                            } else {
                                assert(self@[j].0 == k);
                            }
                        }
                        if str_contains_key(self@, k) {
                            let j = str_index_of(self@, k);
                            if j == i {
                                assert(prev[j].0 == key);
                            } else {
                                assert(prev[j].0 == k);
                            }
                        }
                    }
                }
                true
            },
            None => false,
        }
    }

    /// Drop the entry keyed `id`. Returns whether it was present;
    /// afterwards it is not, and no other entry moved in or out.
    pub fn remove(&mut self, id: &String) -> (r: bool)
        requires
            old(self).wf(),
        ensures
            final(self).wf(),
            r == str_contains_key(old(self)@, id@),
            !str_contains_key(final(self)@, id@),
            !r ==> final(self)@ == old(self)@,
            r ==> final(self)@.len() == old(self)@.len() - 1,
            forall|k: Seq<char>| k != id@ ==> str_lookup(final(self)@, k) == str_lookup(
                old(self)@,
                k,
            ),
    {
        match self.position(id) {
            Some(i) => {
                let ghost prev = self@;
                let ghost key = id@;
                self.entries.remove(i);
                proof {
                    lemma_str_index_of_unique(prev, key, i as int);
                    assert(self@ =~= prev.remove(i as int));
                    assert forall|a: int, b: int| 0 <= a < b < self@.len() implies self@[a].0
                        != self@[b].0 by {
                        let pa = if a < i { a } else { a + 1 };
                        let pb = if b < i { b } else { b + 1 };
                        assert(self@[a] == prev[pa]);
                        assert(self@[b] == prev[pb]);
                        assert(prev[pa].0 != prev[pb].0);
                    }
                    assert forall|j: int| 0 <= j < self@.len() implies self@[j].0 != key by {
                        let pj = if j < i { j } else { j + 1 };
                        assert(self@[j] == prev[pj]);
                        assert(pj != i);
                        assert(prev[pj].0 != prev[i as int].0);
                    }
                    assert forall|k: Seq<char>| k != key implies str_lookup(self@, k)
                        == str_lookup(prev, k) by {
                        if str_contains_key(prev, k) {
                            let j = str_index_of(prev, k);
                            assert(prev[j].0 == k);
                            assert(j != i);
                            let nj = if j < i { j } else { j - 1 };
                            assert(self@[nj] == prev[j]);
                            lemma_str_index_of_unique(self@, k, nj);
                            lemma_str_index_of_unique(prev, k, j);
                        } else if str_contains_key(self@, k) {
                            let j = str_index_of(self@, k);
                            assert(self@[j].0 == k);
                            let pj = if j < i { j } else { j + 1 };
                            assert(prev[pj].0 == k);
                        }
                    }
                }
                true
            },
            None => false,
        }
    }
}

/// Pairwise-distinct keys in an address-keyed entry list.
pub open spec fn addr_keys_unique(s: Seq<(SockAddr, ConnectionMetrics)>) -> bool {
    forall|i: int, j: int| 0 <= i < j < s.len() ==> s[i].0 != s[j].0
}

/// Some entry carries key `k`.
pub open spec fn addr_contains_key(s: Seq<(SockAddr, ConnectionMetrics)>, k: SockAddr) -> bool {
    exists|i: int| 0 <= i < s.len() && s[i].0 == k
}

/// The index of the entry carrying `k`.
pub open spec fn addr_index_of(s: Seq<(SockAddr, ConnectionMetrics)>, k: SockAddr) -> int {
    choose|i: int| 0 <= i < s.len() && s[i].0 == k
}

/// The metrics stored under `k`, if any.
pub open spec fn addr_lookup(s: Seq<(SockAddr, ConnectionMetrics)>, k: SockAddr) -> Option<
    ConnectionMetrics,
> {
    if addr_contains_key(s, k) {
        Some(s[addr_index_of(s, k)].1)
    } else {
        None
    }
}

/// With unique keys, an entry holding `k` at index `i` is the entry
/// the lookup functions speak of.
pub proof fn lemma_addr_index_of_unique(
    s: Seq<(SockAddr, ConnectionMetrics)>,
    k: SockAddr,
    i: int,
)
    requires
        addr_keys_unique(s),
        0 <= i < s.len(),
        s[i].0 == k,
    ensures
        addr_contains_key(s, k),
        addr_index_of(s, k) == i,
        addr_lookup(s, k) == Some(s[i].1),
{
    assert(addr_contains_key(s, k));
    let i0 = addr_index_of(s, k);
    if i0 < i {
        assert(s[i0].0 != s[i].0);
    } else if i0 > i {
        assert(s[i].0 != s[i0].0);
    }
}

/// Metrics of live UDP associations, keyed by client address.
///
/// An entry lives exactly as long as its association's return-path
/// task: created with the association, removed on idle timeout or a
/// fatal send error.
pub struct UdpMetricsTable {
    entries: Vec<(SockAddr, ConnectionMetrics)>,
}

impl View for UdpMetricsTable {
    type V = Seq<(SockAddr, ConnectionMetrics)>;

    closed spec fn view(&self) -> Seq<(SockAddr, ConnectionMetrics)> {
        self.entries@
    }
}

impl UdpMetricsTable {
    /// All keys distinct: the table is a map.
    pub open spec fn wf(&self) -> bool {
        addr_keys_unique(self@)
    }

    pub fn new() -> (r: UdpMetricsTable)
        ensures
            r@ == Seq::<(SockAddr, ConnectionMetrics)>::empty(),
            r.wf(),
    {
        UdpMetricsTable { entries: Vec::new() }
    }

    pub fn len(&self) -> (r: usize)
        ensures
            r == self@.len(),
    {
        self.entries.len()
    }

    /// The entry at position `i`, for taking a snapshot of the table.
    pub fn entry_at(&self, i: usize) -> (r: (SockAddr, ConnectionMetrics))
        requires
            i < self@.len(),
        ensures
            r == self@[i as int],
    {
        self.entries[i]
    }

    /// The index of the entry keyed `addr`, if any.
    fn position(&self, addr: SockAddr) -> (r: Option<usize>)
        ensures
            match r {
                Some(i) => i < self@.len() && self@[i as int].0 == addr,
                None => !addr_contains_key(self@, addr),
            },
    {
        let n = self.entries.len();
        let mut i: usize = 0;
        while i < n
            invariant
                0 <= i <= n,
                n == self@.len(),
                forall|j: int| 0 <= j < i ==> self@[j].0 != addr,
            decreases n - i,
        {
            if self.entries[i].0 == addr {
                return Some(i);
            }
            i = i + 1;
        }
        None
    }

    pub fn contains(&self, addr: SockAddr) -> (r: bool)
        requires
            self.wf(),
        ensures
            r == addr_contains_key(self@, addr),
    {
        match self.position(addr) {
            Some(i) => {
                proof {
                    lemma_addr_index_of_unique(self@, addr, i as int);
                }
                true
            },
            None => false,
        }
    }

    /// The metrics stored under `addr`, or `None` when no association
    /// is live for that client.
    pub fn get(&self, addr: SockAddr) -> (r: Option<ConnectionMetrics>)
        requires
            self.wf(),
        ensures
            r == addr_lookup(self@, addr),
            r is Some <==> addr_contains_key(self@, addr),
    {
        match self.position(addr) {
            Some(i) => {
                proof {
                    lemma_addr_index_of_unique(self@, addr, i as int);
                }
                Some(self.entries[i].1)
            },
            None => None,
        }
    }

    /// Add an entry for a new client. Returns `false` and leaves the
    /// table unchanged when the client is already present.
    pub fn try_insert(&mut self, addr: SockAddr, m: ConnectionMetrics) -> (r: bool)
        requires
            old(self).wf(),
        ensures
            final(self).wf(),
            r == !addr_contains_key(old(self)@, addr),
            r ==> final(self)@ == old(self)@.push((addr, m)),
            !r ==> final(self)@ == old(self)@,
            addr_lookup(final(self)@, addr) is Some,
            forall|k: SockAddr| k != addr ==> addr_lookup(final(self)@, k) == addr_lookup(
                old(self)@,
                k,
            ),
    {
        match self.position(addr) {
            Some(i) => {
                proof {
                    lemma_addr_index_of_unique(self@, addr, i as int);
                }
                false
            },
            None => {
                let ghost prev = self@;
                self.entries.push((addr, m));
                proof {
                    assert(self@ =~= prev.push((addr, m)));
                    assert(self@[prev.len() as int].0 == addr);
                    lemma_addr_index_of_unique(self@, addr, prev.len() as int);
                    assert forall|k: SockAddr| k != addr implies addr_lookup(self@, k)
                        == addr_lookup(prev, k) by {
                        if addr_contains_key(prev, k) {
                            let i = addr_index_of(prev, k);
                            assert(self@[i].0 == k);
                            lemma_addr_index_of_unique(self@, k, i);
                            lemma_addr_index_of_unique(prev, k, i);
                        } else if addr_contains_key(self@, k) {
                            let i = addr_index_of(self@, k);
                            assert(self@[i].0 == k);
                            assert(0 <= i < prev.len());
                            assert(prev[i].0 == k);
                        }
                    }
                }
                true
            },
        }
    }

    /// Overwrite the metrics stored under `addr`. Returns `false`
    /// and changes nothing when the client is unknown.
    pub fn set(&mut self, addr: SockAddr, m: ConnectionMetrics) -> (r: bool)
        requires
            old(self).wf(),
        ensures
            final(self).wf(),
            r == addr_contains_key(old(self)@, addr),
            r ==> addr_lookup(final(self)@, addr) == Some(m),
            r ==> final(self)@ == old(self)@.update(addr_index_of(old(self)@, addr), (addr, m)),
            !r ==> final(self)@ == old(self)@,
            final(self)@.len() == old(self)@.len(),
            forall|k: SockAddr| k != addr ==> addr_lookup(final(self)@, k) == addr_lookup(
                old(self)@,
                k,
            ),
            forall|k: SockAddr|
                addr_contains_key(final(self)@, k) == addr_contains_key(old(self)@, k),
    {
        match self.position(addr) {
            Some(i) => {
                let ghost prev = self@;
                self.entries.remove(i);
                self.entries.insert(i, (addr, m));
                proof {
                    lemma_addr_index_of_unique(prev, addr, i as int);
                    assert(self@ =~= prev.update(i as int, (addr, m)));
                    assert forall|a: int, b: int| 0 <= a < b < self@.len() implies self@[a].0
                        != self@[b].0 by {
                        assert(prev[a].0 != prev[b].0);
                    }
                    lemma_addr_index_of_unique(self@, addr, i as int);
                    assert forall|k: SockAddr| k != addr implies addr_lookup(self@, k)
                        == addr_lookup(prev, k) by {
                        if addr_contains_key(prev, k) {
                            let j = addr_index_of(prev, k);
                            assert(prev[j].0 == k);
                            assert(j != i);
                            assert(self@[j].0 == k);
                            lemma_addr_index_of_unique(self@, k, j);
                            lemma_addr_index_of_unique(prev, k, j);
                        } else if addr_contains_key(self@, k) {
                            let j = addr_index_of(self@, k);
                            assert(self@[j].0 == k);
                            assert(j != i);
                            assert(prev[j].0 == k);
                        }
                    }
                    assert forall|k: SockAddr|
                        addr_contains_key(self@, k) == addr_contains_key(prev, k) by {
                        if addr_contains_key(prev, k) {
                            let j = addr_index_of(prev, k);
                            if j == i {
                                assert(self@[j].0 == addr);
                            } else {
                                assert(self@[j].0 == k);
                            }
                        }
                        if addr_contains_key(self@, k) {
                            let j = addr_index_of(self@, k);
                            if j == i {
                                assert(prev[j].0 == addr);
                            } else {
                                assert(prev[j].0 == k);
                            }
                        }
                    }
                }
                true
            },
            None => false,
        }
    }

    /// Drop the entry keyed `addr`. Returns whether it was present;
    /// afterwards it is not, and no other entry moved in or out.
    pub fn remove(&mut self, addr: SockAddr) -> (r: bool)
        requires
            old(self).wf(),
        ensures
            final(self).wf(),
            r == addr_contains_key(old(self)@, addr),
            !addr_contains_key(final(self)@, addr),
            !r ==> final(self)@ == old(self)@,
            r ==> final(self)@.len() == old(self)@.len() - 1,
            forall|k: SockAddr| k != addr ==> addr_lookup(final(self)@, k) == addr_lookup(
                old(self)@,
                k,
            ),
    {
        match self.position(addr) {
            Some(i) => {
                let ghost prev = self@;
                self.entries.remove(i);
                proof {
                    lemma_addr_index_of_unique(prev, addr, i as int);
                    assert(self@ =~= prev.remove(i as int));
                    assert forall|a: int, b: int| 0 <= a < b < self@.len() implies self@[a].0
                        != self@[b].0 by {
                        let pa = if a < i { a } else { a + 1 };
                        let pb = if b < i { b } else { b + 1 };
                        assert(self@[a] == prev[pa]);
                        assert(self@[b] == prev[pb]);
                        assert(prev[pa].0 != prev[pb].0);
                    }
                    assert forall|j: int| 0 <= j < self@.len() implies self@[j].0 != addr by {
                        let pj = if j < i { j } else { j + 1 };
                        assert(self@[j] == prev[pj]);
                        assert(pj != i);
                        assert(prev[pj].0 != prev[i as int].0);
                    }
                    assert forall|k: SockAddr| k != addr implies addr_lookup(self@, k)
                        == addr_lookup(prev, k) by {
                        if addr_contains_key(prev, k) {
                            let j = addr_index_of(prev, k);
                            assert(prev[j].0 == k);
                            assert(j != i);
                            let nj = if j < i { j } else { j - 1 };
                            assert(self@[nj] == prev[j]);
                            lemma_addr_index_of_unique(self@, k, nj);
                            lemma_addr_index_of_unique(prev, k, j);
                        } else if addr_contains_key(self@, k) {
                            let j = addr_index_of(self@, k);
                            assert(self@[j].0 == k);
                            let pj = if j < i { j } else { j + 1 };
                            assert(prev[pj].0 == k);
                        }
                    }
                }
                true
            },
            None => false,
        }
    }
}


/// The set of live relay rules, by rule-id (the rule's local address
/// string). Owning an id here stands for owning the rule's worker.
pub struct RuleRegistry {
    ids: Vec<String>,
}

/// Pairwise-distinct rule ids.
pub open spec fn rule_ids_unique(s: Seq<Seq<char>>) -> bool {
    forall|i: int, j: int| 0 <= i < j < s.len() ==> s[i] != s[j]
}

/// Some rule carries id `k`.
pub open spec fn rule_ids_contain(s: Seq<Seq<char>>, k: Seq<char>) -> bool {
    exists|i: int| 0 <= i < s.len() && s[i] == k
}

impl View for RuleRegistry {
    type V = Seq<Seq<char>>;

    closed spec fn view(&self) -> Seq<Seq<char>> {
        self.ids@.map_values(|id: String| id@)
    }
}

impl RuleRegistry {
    pub open spec fn wf(&self) -> bool {
        rule_ids_unique(self@)
    }

    pub fn new() -> (r: RuleRegistry)
        ensures
            r@ == Seq::<Seq<char>>::empty(),
            r.wf(),
    {
        let r = RuleRegistry { ids: Vec::new() };
        proof {
            assert(r@ =~= Seq::<Seq<char>>::empty());
        }
        r
    }

    pub fn len(&self) -> (r: usize)
        ensures
            r == self@.len(),
    {
        self.ids.len()
    }

    fn position(&self, id: &String) -> (r: Option<usize>)
        ensures
            match r {
                Some(i) => i < self@.len() && self@[i as int] == id@,
                None => !rule_ids_contain(self@, id@),
            },
    {
        let n = self.ids.len();
        let mut i: usize = 0;
        while i < n
            invariant
                0 <= i <= n,
                n == self@.len(),
                self@.len() == self.ids@.len(),
                forall|j: int| 0 <= j < i ==> self@[j] != id@,
            decreases n - i,
        {
            if self.ids[i] == *id {
                return Some(i);
            }
            i = i + 1;
        }
        None
    }

    pub fn contains(&self, id: &String) -> (r: bool)
        ensures
            r == rule_ids_contain(self@, id@),
    {
        self.position(id).is_some()
    }

    /// Claim a rule id. Returns `true` and records the id when it was
    /// free; returns `false` and changes nothing when it was taken.
    /// Of two posts of the same id, exactly one can succeed.
    pub fn try_add(&mut self, id: String) -> (r: bool)
        requires
            old(self).wf(),
        ensures
            final(self).wf(),
            r == !rule_ids_contain(old(self)@, id@),
            r ==> final(self)@ == old(self)@.push(id@),
            !r ==> final(self)@ == old(self)@,
            rule_ids_contain(final(self)@, id@),
    {
        match self.position(&id) {
            Some(_) => false,
            None => {
                let ghost prev = self@;
                let ghost key = id@;
                self.ids.push(id);
                proof {
                    assert(self@ =~= prev.push(key));
                    assert(self@[prev.len() as int] == key);
                }
                true
            },
        }
    }

    /// Release a rule id. Returns whether it was present; afterwards
    /// it is not, and every other id is still registered.
    pub fn remove(&mut self, id: &String) -> (r: bool)
        requires
            old(self).wf(),
        ensures
            final(self).wf(),
            r == rule_ids_contain(old(self)@, id@),
            !rule_ids_contain(final(self)@, id@),
            !r ==> final(self)@ == old(self)@,
            r ==> final(self)@.len() == old(self)@.len() - 1,
            forall|k: Seq<char>| k != id@ ==> rule_ids_contain(final(self)@, k)
                == rule_ids_contain(old(self)@, k),
    {
        match self.position(id) {
            Some(i) => {
                let ghost prev = self@;
                let ghost key = id@;
                self.ids.remove(i);
                proof {
                    assert(self@ =~= prev.remove(i as int));
                    assert forall|a: int, b: int| 0 <= a < b < self@.len() implies self@[a]
                        != self@[b] by {
                        let pa = if a < i { a } else { a + 1 };
                        let pb = if b < i { b } else { b + 1 };
                        assert(self@[a] == prev[pa]);
                        assert(self@[b] == prev[pb]);
                        assert(prev[pa] != prev[pb]);
                    }
                    assert forall|j: int| 0 <= j < self@.len() implies self@[j] != key by {
                        let pj = if j < i { j } else { j + 1 };
                        assert(self@[j] == prev[pj]);
                        assert(prev[pj] != prev[i as int]);
                    }
                    assert forall|k: Seq<char>| k != key implies rule_ids_contain(self@, k)
                        == rule_ids_contain(prev, k) by {
                        if rule_ids_contain(prev, k) {
                            let j = choose|j: int| 0 <= j < prev.len() && prev[j] == k;
                            assert(j != i);
                            let nj = if j < i { j } else { j - 1 };
                            assert(self@[nj] == prev[j]);
                        }
                        if rule_ids_contain(self@, k) {
                            let j = choose|j: int| 0 <= j < self@.len() && self@[j] == k;
                            let pj = if j < i { j } else { j + 1 };
                            assert(prev[pj] == k);
                        }
                    }
                }
                true
            },
            None => false,
        }
    }
}

/// Law: at most one rule per id. Two posts of the same id, however
/// they interleave, serialize on the registry; each behaves as
/// [`RuleRegistry::try_add`] promises, on the state the other left.
/// Then at most one is answered created, and when the id starts out
/// free, the first is created and the second answers conflict without
/// any side effect.
pub proof fn lemma_at_most_one_rule_per_id(
    s0: Seq<Seq<char>>,
    id: Seq<char>,
    s1: Seq<Seq<char>>,
    created1: bool,
    s2: Seq<Seq<char>>,
    created2: bool,
)
    requires
        created1 == !rule_ids_contain(s0, id),
        created1 ==> s1 == s0.push(id),
        !created1 ==> s1 == s0,
        created2 == !rule_ids_contain(s1, id),
        created2 ==> s2 == s1.push(id),
        !created2 ==> s2 == s1,
    ensures
        !(created1 && created2),
        !rule_ids_contain(s0, id) ==> created1 && !created2 && s2 == s0.push(id),
{
    if created1 {
        assert(s1[s0.len() as int] == id);
    }
}

/// Law: delete is complete. A removal that answered 200 leaves the
/// id unregistered - the registry entry is the rule's life token, so
/// no new connection can be attributed to it - and a repost of the
/// same id, behaving as [`RuleRegistry::try_add`] promises, is then
/// answered created.
pub proof fn lemma_delete_is_complete(
    s1: Seq<Seq<char>>,
    id: Seq<char>,
    s2: Seq<Seq<char>>,
    reposted: bool,
)
    requires
        !rule_ids_contain(s1, id),
        reposted == !rule_ids_contain(s1, id),
        reposted ==> s2 == s1.push(id),
    ensures
        reposted,
        rule_ids_contain(s2, id),
{
    assert(s2[s1.len() as int] == id);
}


/// One pass of the periodic rate task over the TCP map: recompute
/// both rates of every live connection at `now_micros`. Totals are
/// untouched; every entry keeps its key and position.
pub fn calculate_all_tcp_speeds(table: &mut TcpMetricsTable, now_micros: u64)
    requires
        old(table).wf(),
    ensures
        final(table).wf(),
        final(table)@.len() == old(table)@.len(),
        forall|i: int|
            0 <= i < old(table)@.len() ==> #[trigger] final(table)@[i] == (
                old(table)@[i].0,
                spec_calculate_speed(old(table)@[i].1, now_micros),
            ),
{
    let ghost orig = table@;
    let n = table.len();
    let mut i: usize = 0;
    while i < n
        invariant
            0 <= i <= n,
            n == orig.len(),
            table.wf(),
            table@.len() == orig.len(),
            forall|j: int|
                i <= j < orig.len() ==> #[trigger] table@[j] == orig[j],
            forall|j: int|
                0 <= j < i ==> #[trigger] table@[j] == (
                    orig[j].0,
                    spec_calculate_speed(orig[j].1, now_micros),
                ),
        decreases n - i,
    {
        let ghost before = table@;
        let (id, m) = table.entry_at(i);
        let mut m2 = m;
        m2.calculate_speed(now_micros);
        proof {
            lemma_str_index_of_unique(before, id@, i as int);
        }
        let updated = table.set(&id, m2);
        proof {
            assert(updated);
            assert(table@ == before.update(i as int, (id@, m2)));
        }
        i = i + 1;
    }
}

/// One pass of the periodic rate task over the UDP map; the same
/// recomputation for every live association.
pub fn calculate_all_udp_speeds(table: &mut UdpMetricsTable, now_micros: u64)
    requires
        old(table).wf(),
    ensures
        final(table).wf(),
        final(table)@.len() == old(table)@.len(),
        forall|i: int|
            0 <= i < old(table)@.len() ==> #[trigger] final(table)@[i] == (
                old(table)@[i].0,
                spec_calculate_speed(old(table)@[i].1, now_micros),
            ),
{
    let ghost orig = table@;
    let n = table.len();
    let mut i: usize = 0;
    while i < n
        invariant
            0 <= i <= n,
            n == orig.len(),
            table.wf(),
            table@.len() == orig.len(),
            forall|j: int|
                i <= j < orig.len() ==> #[trigger] table@[j] == orig[j],
            forall|j: int|
                0 <= j < i ==> #[trigger] table@[j] == (
                    orig[j].0,
                    spec_calculate_speed(orig[j].1, now_micros),
                ),
        decreases n - i,
    {
        let ghost before = table@;
        let (addr, m) = table.entry_at(i);
        let mut m2 = m;
        m2.calculate_speed(now_micros);
        proof {
            lemma_addr_index_of_unique(before, addr, i as int);
        }
        let updated = table.set(addr, m2);
        proof {
            assert(updated);
            assert(table@ == before.update(i as int, (addr, m2)));
        }
        i = i + 1;
    }
}

} // verus!
