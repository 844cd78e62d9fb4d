//! The UDP association engine's data path.
//!
//! A rule's forward task receives datagram batches on one listening
//! socket, groups them by client source address, and forwards each
//! group through that client's association socket. Grouping makes
//! each distinct source a contiguous range of the batch: sources
//! appear in first-arrival order and packets of one source keep
//! their arrival order.

use vstd::prelude::*;
use crate::addr::SockAddr;
use crate::monitor::{ConnectionMetrics, MetricsOp, spec_apply_op, spec_new_metrics};
use crate::registry::{UdpMetricsTable, addr_contains_key, addr_lookup};

verus! {

/// Capacity of one receive batch.
pub const MAX_PACKETS: usize = 64;

/// Largest UDP payload carried: the v4 datagram limit.
pub const MAX_UDP_PAYLOAD: usize = 65507;

/// One datagram: its source (or destination) address and payload.
#[derive(Debug)]
pub struct Packet {
    pub addr: SockAddr,
    pub payload: Vec<u8>,
}

impl Packet {
    /// A payload that fits one UDP datagram.
    pub open spec fn wf(&self) -> bool {
        self.payload@.len() <= MAX_UDP_PAYLOAD
    }
}

/// A contiguous range of packets, one source's group.
#[derive(Debug, Clone, Copy, PartialEq, Eq, Structural)]
pub struct PktRange {
    pub start: usize,
    pub end: usize,
}

/// The packets of `s` whose address is `a`, in order.
pub open spec fn spec_filter_addr(s: Seq<Packet>, a: SockAddr) -> Seq<Packet>
    decreases s.len(),
{
    if s.len() == 0 {
        Seq::<Packet>::empty()
    } else {
        let init = spec_filter_addr(s.drop_last(), a);
        if s.last().addr == a {
            init.push(s.last())
        } else {
            init
        }
    }
}

/// The distinct source addresses of `s`, in first-arrival order.
pub open spec fn spec_distinct_addrs(s: Seq<Packet>) -> Seq<SockAddr>
    decreases s.len(),
{
    if s.len() == 0 {
        Seq::<SockAddr>::empty()
    } else {
        let init = spec_distinct_addrs(s.drop_last());
        if init.contains(s.last().addr) {
            init
        } else {
            init.push(s.last().addr)
        }
    }
}

/// The groups of `s` under the addresses `addrs`, laid end to end.
pub open spec fn spec_concat_groups(s: Seq<Packet>, addrs: Seq<SockAddr>) -> Seq<Packet>
    decreases addrs.len(),
{
    if addrs.len() == 0 {
        Seq::<Packet>::empty()
    } else {
        spec_concat_groups(s, addrs.drop_last()) + spec_filter_addr(s, addrs.last())
    }
}

/// An address is distinct-listed exactly when some packet carries it.
pub proof fn lemma_distinct_contains(s: Seq<Packet>, a: SockAddr)
    ensures
        spec_distinct_addrs(s).contains(a) <==> exists|k: int| 0 <= k < s.len() && s[k].addr == a,
    decreases s.len(),
{
    if s.len() > 0 {
        let t = s.drop_last();
        lemma_distinct_contains(t, a);
        let init = spec_distinct_addrs(t);
        if s.last().addr == a {
            if init.contains(a) {
            } else {
                assert(spec_distinct_addrs(s)[init.len() as int] == a);
            }
            assert(s[s.len() - 1].addr == a);
        } else {
            if exists|k: int| 0 <= k < s.len() && s[k].addr == a {
                let k = choose|k: int| 0 <= k < s.len() && s[k].addr == a;
                assert(t[k].addr == a);
            }
            if init.contains(a) {
                let j = choose|j: int| 0 <= j < init.len() && init[j] == a;
                if !init.contains(s.last().addr) {
                    assert(spec_distinct_addrs(s)[j] == a);
                }
            }
        }
    }
}

/// The distinct-address list never repeats an address.
pub proof fn lemma_distinct_no_dup(s: Seq<Packet>)
    ensures
        forall|i: int, j: int|
            0 <= i < j < spec_distinct_addrs(s).len() ==> spec_distinct_addrs(s)[i]
                != spec_distinct_addrs(s)[j],
    decreases s.len(),
{
    if s.len() > 0 {
        let t = s.drop_last();
        lemma_distinct_no_dup(t);
        let init = spec_distinct_addrs(t);
        let das = spec_distinct_addrs(s);
        if !init.contains(s.last().addr) {
            assert forall|i: int, j: int| 0 <= i < j < das.len() implies das[i] != das[j] by {
                if j < init.len() {
                } else {
                    assert(das[j] == s.last().addr);
                    assert(das[i] == init[i]);
                    assert(!init.contains(s.last().addr));
                    if init[i] == s.last().addr {
                        assert(init.contains(s.last().addr));
                    }
                }
            }
        }
    }
}

/// No packet of `s` carries `a` exactly when `a`'s group is empty.
pub proof fn lemma_filter_empty(s: Seq<Packet>, a: SockAddr)
    requires
        forall|k: int| 0 <= k < s.len() ==> s[k].addr != a,
    ensures
        spec_filter_addr(s, a) == Seq::<Packet>::empty(),
    decreases s.len(),
{
    if s.len() > 0 {
        let t = s.drop_last();
        assert forall|k: int| 0 <= k < t.len() implies t[k].addr != a by {
            assert(t[k] == s[k]);
        }
        lemma_filter_empty(t, a);
    }
}

/// Appending one packet grows exactly its own address's group.
proof fn lemma_concat_groups_step(t: Seq<Packet>, p: Packet, addrs: Seq<SockAddr>)
    requires
        forall|i: int, j: int| 0 <= i < j < addrs.len() ==> addrs[i] != addrs[j],
    ensures
        spec_concat_groups(t.push(p), addrs).len() == spec_concat_groups(t, addrs).len() + (
        if addrs.contains(p.addr) {
            1int
        } else {
            0int
        }),
    decreases addrs.len(),
{
    if addrs.len() == 0 {
        assert(!addrs.contains(p.addr));
    } else {
        let rest = addrs.drop_last();
        let b = addrs.last();
        assert forall|i: int, j: int| 0 <= i < j < rest.len() implies rest[i] != rest[j] by {
            assert(rest[i] == addrs[i] && rest[j] == addrs[j]);
        }
        lemma_concat_groups_step(t, p, rest);
        let sp = t.push(p);
        assert(sp.drop_last() =~= t);
        assert(sp.last() == p);
        if b == p.addr {
            assert(spec_filter_addr(sp, b) == spec_filter_addr(t, b).push(p));
            assert(!rest.contains(p.addr)) by {
                if rest.contains(p.addr) {
                    let j = choose|j: int| 0 <= j < rest.len() && rest[j] == p.addr;
                    assert(addrs[j] == addrs[addrs.len() - 1]);
                }
            }
            assert(addrs.contains(p.addr)) by {
                assert(addrs[addrs.len() - 1] == p.addr);
            }
        } else {
            assert(spec_filter_addr(sp, b) == spec_filter_addr(t, b));
            if addrs.contains(p.addr) {
                let j = choose|j: int| 0 <= j < addrs.len() && addrs[j] == p.addr;
                assert(rest[j] == p.addr);
                assert(rest.contains(p.addr));
            } else {
                if rest.contains(p.addr) {
                    let j = choose|j: int| 0 <= j < rest.len() && rest[j] == p.addr;
                    assert(addrs[j] == p.addr);
                }
            }
        }
    }
}

/// Grouping rearranges the batch: laid end to end, the groups hold
/// exactly as many packets as came in.
pub proof fn lemma_concat_groups_len(s: Seq<Packet>)
    ensures
        spec_concat_groups(s, spec_distinct_addrs(s)).len() == s.len(),
    decreases s.len(),
{
    if s.len() > 0 {
        let t = s.drop_last();
        let p = s.last();
        lemma_concat_groups_len(t);
        lemma_distinct_no_dup(t);
        let das_t = spec_distinct_addrs(t);
        assert(t.push(p) =~= s);
        if das_t.contains(p.addr) {
            lemma_concat_groups_step(t, p, das_t);
        } else {
            lemma_concat_groups_step(t, p, das_t);
            let das_s = spec_distinct_addrs(s);
            assert(das_s == das_t.push(p.addr));
            assert(das_s.drop_last() =~= das_t);
            assert(spec_concat_groups(s, das_s) == spec_concat_groups(s, das_t)
                + spec_filter_addr(s, p.addr));
            lemma_distinct_contains(t, p.addr);
            lemma_filter_empty(t, p.addr);
            assert(spec_filter_addr(s, p.addr) =~= seq![p]);
        }
    }
}


/// The bucket holding address `a`, if any.
fn bucket_position(buckets: &Vec<(SockAddr, Vec<Packet>)>, a: SockAddr) -> (r: Option<usize>)
    ensures
        match r {
            Some(i) => i < buckets@.len() && buckets@[i as int].0 == a,
            None => forall|j: int| 0 <= j < buckets@.len() ==> buckets@[j].0 != a,
        },
{
    let n = buckets.len();
    let mut i: usize = 0;
    while i < n
        invariant
            0 <= i <= n,
            n == buckets@.len(),
            forall|j: int| 0 <= j < i ==> buckets@[j].0 != a,
        decreases n - i,
    {
        if buckets[i].0 == a {
            return Some(i);
        }
        i = i + 1;
    }
    None
}

/// Group a batch by source address, in place.
///
/// Afterwards `data` holds the same packets rearranged so that each
/// distinct source address owns one contiguous range, recorded in
/// `groups`: sources in first-arrival order, and the packets of each
/// source in their arrival order.
pub fn group_by_inner(data: &mut Vec<Packet>, groups: &mut Vec<PktRange>)
    ensures
        final(groups)@.len() == spec_distinct_addrs(old(data)@).len(),
        final(data)@ == spec_concat_groups(old(data)@, spec_distinct_addrs(old(data)@)),
        final(data)@.len() == old(data)@.len(),
        forall|g: int|
            0 <= g < final(groups)@.len() ==> (#[trigger] final(groups)@[g]).start
                <= final(groups)@[g].end <= final(data)@.len() && final(data)@.subrange(
                final(groups)@[g].start as int,
                final(groups)@[g].end as int,
            ) == spec_filter_addr(old(data)@, spec_distinct_addrs(old(data)@)[g]),
        final(groups)@.len() > 0 ==> final(groups)@[0].start == 0
            && final(groups)@[final(groups)@.len() - 1].end == final(data)@.len(),
        forall|g: int|
            0 <= g < final(groups)@.len() - 1 ==> (#[trigger] final(groups)@[g]).end
                == final(groups)@[g + 1].start,
{
    let ghost d = data@;
    groups.clear();
    let mut buckets: Vec<(SockAddr, Vec<Packet>)> = Vec::new();
    let ghost mut k: int = 0;
    while data.len() > 0
        invariant
            0 <= k <= d.len(),
            data@ == d.skip(k),
            buckets@.len() == spec_distinct_addrs(d.take(k)).len(),
            forall|i: int|
                0 <= i < buckets@.len() ==> (#[trigger] buckets@[i]).0 == spec_distinct_addrs(
                    d.take(k),
                )[i] && buckets@[i].1@ == spec_filter_addr(d.take(k), buckets@[i].0),
        decreases data@.len(),
    {
        let p = data.remove(0);
        let a = p.addr;
        proof {
            assert(d.skip(k).remove(0) =~= d.skip(k + 1));
            assert(d.take(k + 1).drop_last() =~= d.take(k));
            assert(d.take(k + 1).last() == d[k]);
            assert(p == d[k]);
        }
        let ghost prev_buckets = buckets@;
        let ghost das_k = spec_distinct_addrs(d.take(k));
        let ghost das_k1 = spec_distinct_addrs(d.take(k + 1));
        match bucket_position(&buckets, a) {
            Some(i) => {
                let mut b = buckets.remove(i);
                b.1.push(p);
                buckets.insert(i, b);
                proof {
                    assert(das_k.contains(a)) by {
                        assert(das_k[i as int] == a);
                    }
                    assert(das_k1 == das_k);
                    assert(buckets@.len() == prev_buckets.len());
                    assert forall|j: int|
                        0 <= j < buckets@.len() && j != i implies buckets@[j] == prev_buckets[j]
                    by {}
                    assert(buckets@[i as int].0 == a);
                    assert(buckets@[i as int].1@ == prev_buckets[i as int].1@.push(d[k]));
                    assert forall|j: int| 0 <= j < buckets@.len() implies (
                    #[trigger] buckets@[j]).0 == das_k1[j] && buckets@[j].1@ == spec_filter_addr(
                        d.take(k + 1),
                        buckets@[j].0,
                    ) by {
                        if j == i {
                            assert(buckets@[j].0 == a);
                            assert(spec_filter_addr(d.take(k + 1), a) == spec_filter_addr(
                                d.take(k),
                                a,
                            ).push(d[k]));
                        } else {
                            assert(buckets@[j] == prev_buckets[j]);
                            assert(prev_buckets[j].0 != a) by {
                                lemma_distinct_no_dup(d.take(k));
                                if prev_buckets[j].0 == a {
                                    assert(das_k[j] == das_k[i as int]);
                                }
                            }
                            assert(spec_filter_addr(d.take(k + 1), buckets@[j].0)
                                == spec_filter_addr(d.take(k), buckets@[j].0));
                        }
                    }
                }
            },
            None => {
                let mut nb: Vec<Packet> = Vec::new();
                nb.push(p);
                buckets.push((a, nb));
                proof {
                    assert(!das_k.contains(a)) by {
                        if das_k.contains(a) {
                            let j = choose|j: int| 0 <= j < das_k.len() && das_k[j] == a;
                            assert(prev_buckets[j].0 == a);
                        }
                    }
                    assert(das_k1 == das_k.push(a));
                    assert(buckets@.len() == prev_buckets.len() + 1);
                    assert forall|j: int|
                        0 <= j < prev_buckets.len() implies buckets@[j] == prev_buckets[j]
                    by {}
                    assert(buckets@[prev_buckets.len() as int].0 == a);
                    assert(buckets@[prev_buckets.len() as int].1@ =~= seq![d[k]]);
                    assert forall|j: int| 0 <= j < buckets@.len() implies (
                    #[trigger] buckets@[j]).0 == das_k1[j] && buckets@[j].1@ == spec_filter_addr(
                        d.take(k + 1),
                        buckets@[j].0,
                    ) by {
                        if j < prev_buckets.len() {
                            assert(buckets@[j] == prev_buckets[j]);
                            assert(das_k1[j] == das_k[j]);
                            assert(prev_buckets[j].0 != a);
                            assert(spec_filter_addr(d.take(k + 1), buckets@[j].0)
                                == spec_filter_addr(d.take(k), buckets@[j].0));
                        } else {
                            assert(buckets@[j].0 == a);
                            assert(das_k1[j] == a);
                            lemma_distinct_contains(d.take(k), a);
                            lemma_filter_empty(d.take(k), a);
                            assert(buckets@[j].1@ =~= spec_filter_addr(d.take(k), a).push(d[k]));
                            assert(spec_filter_addr(d.take(k + 1), a) == spec_filter_addr(
                                d.take(k),
                                a,
                            ).push(d[k]));
                        }
                    }
                }
            },
        }
        proof {
            k = k + 1;
        }
    }
    proof {
        assert(k == d.len());
        assert(d.take(k) =~= d);
    }
    let ghost das = spec_distinct_addrs(d);
    let ghost m = das.len();
    while buckets.len() > 0
        invariant
            buckets@.len() <= m,
            m == das.len(),
            das == spec_distinct_addrs(d),
            groups@.len() == m - buckets@.len(),
            data@ == spec_concat_groups(d, das.take(m - buckets@.len())),
            forall|i: int|
                0 <= i < buckets@.len() ==> (#[trigger] buckets@[i]).0 == das[m - buckets@.len()
                    + i] && buckets@[i].1@ == spec_filter_addr(d, buckets@[i].0),
            forall|g: int|
                0 <= g < groups@.len() ==> (#[trigger] groups@[g]).start <= groups@[g].end
                    <= data@.len() && data@.subrange(
                    groups@[g].start as int,
                    groups@[g].end as int,
                ) == spec_filter_addr(d, das[g]),
            groups@.len() > 0 ==> groups@[0].start == 0 && groups@[groups@.len() - 1].end
                == data@.len(),
            groups@.len() == 0 ==> data@.len() == 0,
            forall|g: int|
                0 <= g < groups@.len() - 1 ==> (#[trigger] groups@[g]).end == groups@[g + 1].start,
        decreases buckets@.len(),
    {
        let ghost g = m - buckets@.len();
        let ghost prev_data = data@;
        let ghost prev_groups = groups@;
        let mut b = buckets.remove(0);
        let start = data.len();
        data.append(&mut b.1);
        let end = data.len();
        groups.push(PktRange { start: start, end: end });
        proof {
            assert(das.take(g + 1).drop_last() =~= das.take(g));
            assert(das.take(g + 1).last() == das[g]);
            assert(data@ == prev_data + spec_filter_addr(d, das[g]));
            assert(data@ == spec_concat_groups(d, das.take(g + 1)));
            assert forall|gg: int|
                0 <= gg < groups@.len() implies (#[trigger] groups@[gg]).start <= groups@[gg].end
                <= data@.len() && data@.subrange(
                groups@[gg].start as int,
                groups@[gg].end as int,
            ) == spec_filter_addr(d, das[gg]) by {
                if gg < g {
                    assert(groups@[gg] == prev_groups[gg]);
                    assert(data@.subrange(
                        groups@[gg].start as int,
                        groups@[gg].end as int,
                    ) =~= prev_data.subrange(groups@[gg].start as int, groups@[gg].end as int));
                } else {
                    assert(groups@[gg] == (PktRange { start: start, end: end }));
                    assert(data@.subrange(start as int, end as int) =~= spec_filter_addr(
                        d,
                        das[g],
                    ));
                }
            }
        }
    }
    proof {
        assert(das.take(m as int) =~= das);
        lemma_concat_groups_len(d);
    }
}


/// Total payload bytes of a packet run.
pub open spec fn spec_total_payload(s: Seq<Packet>) -> int
    decreases s.len(),
{
    if s.len() == 0 {
        0
    } else {
        spec_total_payload(s.drop_last()) + s.last().payload@.len()
    }
}

/// Every packet of an address's group comes from the batch.
pub proof fn lemma_filter_subset(s: Seq<Packet>, a: SockAddr)
    ensures
        forall|i: int|
            0 <= i < spec_filter_addr(s, a).len() ==> s.contains(#[trigger] spec_filter_addr(
                s,
                a,
            )[i]),
    decreases s.len(),
{
    if s.len() > 0 {
        let t = s.drop_last();
        lemma_filter_subset(t, a);
        let f = spec_filter_addr(s, a);
        let ft = spec_filter_addr(t, a);
        assert forall|i: int| 0 <= i < f.len() implies s.contains(#[trigger] f[i]) by {
            if i < ft.len() {
                assert(f[i] == ft[i]);
                let j = choose|j: int| 0 <= j < t.len() && t[j] == ft[i];
                assert(s[j] == f[i]);
            } else {
                assert(f[i] == s.last());
                assert(s[s.len() - 1] == f[i]);
            }
        }
    }
}

/// Every packet of the regrouped batch comes from the batch.
pub proof fn lemma_concat_subset(s: Seq<Packet>, addrs: Seq<SockAddr>)
    ensures
        forall|i: int|
            0 <= i < spec_concat_groups(s, addrs).len() ==> s.contains(
                #[trigger] spec_concat_groups(s, addrs)[i],
            ),
    decreases addrs.len(),
{
    if addrs.len() > 0 {
        let rest = addrs.drop_last();
        lemma_concat_subset(s, rest);
        lemma_filter_subset(s, addrs.last());
        let c = spec_concat_groups(s, addrs);
        let cr = spec_concat_groups(s, rest);
        let f = spec_filter_addr(s, addrs.last());
        assert forall|i: int| 0 <= i < c.len() implies s.contains(#[trigger] c[i]) by {
            if i < cr.len() {
                assert(c[i] == cr[i]);
            } else {
                assert(c[i] == f[i - cr.len()]);
            }
        }
    }
}

/// One rule's receive batch and its grouping by source address.
pub struct Registry {
    pkts: Vec<Packet>,
    groups: Vec<PktRange>,
}

impl Registry {
    /// The packets of the current batch.
    pub closed spec fn packets(&self) -> Seq<Packet> {
        self.pkts@
    }

    /// The source groups of the current batch.
    pub closed spec fn group_ranges(&self) -> Seq<PktRange> {
        self.groups@
    }

    /// A batch that fits the receive array, of sendable datagrams.
    pub open spec fn wf(&self) -> bool {
        &&& self.packets().len() <= MAX_PACKETS
        &&& forall|i: int| 0 <= i < self.packets().len() ==> (#[trigger] self.packets()[i]).wf()
    }

    /// Each group is a well-delimited range of the batch.
    pub open spec fn groups_wf(&self) -> bool {
        forall|g: int|
            0 <= g < self.group_ranges().len() ==> (#[trigger] self.group_ranges()[g]).start
                <= self.group_ranges()[g].end <= self.packets().len()
    }

    pub fn new() -> (r: Registry)
        ensures
            r.packets().len() == 0,
            r.group_ranges().len() == 0,
            r.wf(),
            r.groups_wf(),
    {
        Registry { pkts: Vec::new(), groups: Vec::new() }
    }

    /// Install a freshly received batch, clearing any old grouping.
    pub fn load(&mut self, pkts: Vec<Packet>)
        requires
            pkts@.len() <= MAX_PACKETS,
            forall|i: int| 0 <= i < pkts@.len() ==> (#[trigger] pkts@[i]).wf(),
        ensures
            final(self).packets() == pkts@,
            final(self).group_ranges().len() == 0,
            final(self).wf(),
            final(self).groups_wf(),
    {
        self.pkts = pkts;
        self.groups.clear();
    }

    /// How many packets the current batch holds.
    pub fn count(&self) -> (r: usize)
        ensures
            r == self.packets().len(),
    {
        self.pkts.len()
    }

    /// The packet at position `i`.
    pub fn packet_at(&self, i: usize) -> (r: &Packet)
        requires
            i < self.packets().len(),
        ensures
            *r == self.packets()[i as int],
    {
        &self.pkts[i]
    }

    /// Group the batch by source address; see [`group_by_inner`].
    pub fn group_by_addr(&mut self)
        requires
            old(self).wf(),
        ensures
            final(self).wf(),
            final(self).groups_wf(),
            final(self).packets().len() == old(self).packets().len(),
            final(self).packets() == spec_concat_groups(
                old(self).packets(),
                spec_distinct_addrs(old(self).packets()),
            ),
            final(self).group_ranges().len() == spec_distinct_addrs(old(self).packets()).len(),
            forall|g: int|
                0 <= g < final(self).group_ranges().len() ==> final(self).packets().subrange(
                    (#[trigger] final(self).group_ranges()[g]).start as int,
                    final(self).group_ranges()[g].end as int,
                ) == spec_filter_addr(
                    old(self).packets(),
                    spec_distinct_addrs(old(self).packets())[g],
                ),
            forall|g: int|
                0 <= g < final(self).group_ranges().len() - 1
                    ==> (#[trigger] final(self).group_ranges()[g]).end
                    == final(self).group_ranges()[g + 1].start,
            final(self).group_ranges().len() > 0 ==> final(self).group_ranges()[0].start == 0
                && final(self).group_ranges()[final(self).group_ranges().len() - 1].end
                == final(self).packets().len(),
    {
        let ghost d = self.pkts@;
        group_by_inner(&mut self.pkts, &mut self.groups);
        proof {
            lemma_concat_subset(d, spec_distinct_addrs(d));
            assert forall|i: int| 0 <= i < self.pkts@.len() implies (
            #[trigger] self.pkts@[i]).wf() by {
                assert(d.contains(self.pkts@[i]));
                let j = choose|j: int| 0 <= j < d.len() && d[j] == self.pkts@[i];
                assert(d[j].wf());
            }
        }
    }

    /// Number of source groups.
    pub fn group_count(&self) -> (r: usize)
        ensures
            r == self.group_ranges().len(),
    {
        self.groups.len()
    }

    /// The bounds of group `g`.
    pub fn group_range(&self, g: usize) -> (r: PktRange)
        requires
            g < self.group_ranges().len(),
        ensures
            r == self.group_ranges()[g as int],
    {
        self.groups[g]
    }

    /// Total payload bytes of group `g`, the amount the forward path
    /// accounts as uplink traffic after sending the group.
    pub fn group_total_bytes(&self, g: usize) -> (r: u64)
        requires
            self.wf(),
            self.groups_wf(),
            g < self.group_ranges().len(),
        ensures
            r == spec_total_payload(
                self.packets().subrange(
                    self.group_ranges()[g as int].start as int,
                    self.group_ranges()[g as int].end as int,
                ),
            ),
    {
        let range = self.groups[g];
        let ghost whole = self.packets().subrange(range.start as int, range.end as int);
        let mut acc: u64 = 0;
        let mut i: usize = range.start;
        while i < range.end
            invariant
                range.start <= i <= range.end <= self.packets().len(),
                self.wf(),
                whole == self.packets().subrange(range.start as int, range.end as int),
                acc == spec_total_payload(
                    self.packets().subrange(range.start as int, i as int),
                ),
                acc <= (i - range.start) * (MAX_UDP_PAYLOAD as int),
            decreases range.end - i,
        {
            let p = &self.pkts[i];
            proof {
                let upto = self.packets().subrange(range.start as int, i + 1);
                assert(upto.drop_last() =~= self.packets().subrange(
                    range.start as int,
                    i as int,
                ));
                assert(upto.last() == self.packets()[i as int]);
                assert(self.packets()[i as int].wf());
                assert((i + 1 - range.start) * (MAX_UDP_PAYLOAD as int) == (i - range.start) * (
                MAX_UDP_PAYLOAD as int) + MAX_UDP_PAYLOAD) by (nonlinear_arith);
                assert((i - range.start) * (MAX_UDP_PAYLOAD as int) <= MAX_PACKETS * (
                MAX_UDP_PAYLOAD as int)) by (nonlinear_arith)
                    requires
                        0 <= i - range.start <= MAX_PACKETS,
                ;
            }
            acc = acc + p.payload.len() as u64;
            i = i + 1;
        }
        proof {
            assert(self.packets().subrange(range.start as int, i as int) == whole);
        }
        acc
    }
}

/// The set of live UDP associations of one rule, by client address.
/// Owning an entry stands for owning the association's outbound
/// socket; find-or-create constructs it at most once per client.
pub struct SockMap {
    clients: Vec<SockAddr>,
}

/// Pairwise-distinct client addresses.
pub open spec fn clients_unique(s: Seq<SockAddr>) -> bool {
    forall|i: int, j: int| 0 <= i < j < s.len() ==> s[i] != s[j]
}

/// Some association serves client `a`.
pub open spec fn clients_contain(s: Seq<SockAddr>, a: SockAddr) -> bool {
    exists|i: int| 0 <= i < s.len() && s[i] == a
}

impl View for SockMap {
    type V = Seq<SockAddr>;

    closed spec fn view(&self) -> Seq<SockAddr> {
        self.clients@
    }
}

impl SockMap {
    pub open spec fn wf(&self) -> bool {
        clients_unique(self@)
    }

    pub fn new() -> (r: SockMap)
        ensures
            r@ == Seq::<SockAddr>::empty(),
            r.wf(),
    {
        let r = SockMap { clients: Vec::new() };
        proof {
            assert(r@ =~= Seq::<SockAddr>::empty());
        }
        r
    }

    pub fn len(&self) -> (r: usize)
        ensures
            r == self@.len(),
    {
        self.clients.len()
    }

    fn position(&self, addr: SockAddr) -> (r: Option<usize>)
        ensures
            match r {
                Some(i) => i < self@.len() && self@[i as int] == addr,
                None => !clients_contain(self@, addr),
            },
    {
        let n = self.clients.len();
        let mut i: usize = 0;
        while i < n
            invariant
                0 <= i <= n,
                n == self@.len(),
                forall|j: int| 0 <= j < i ==> self@[j] != addr,
            decreases n - i,
        {
            if self.clients[i] == addr {
                return Some(i);
            }
            i = i + 1;
        }
        None
    }

    pub fn contains(&self, addr: SockAddr) -> (r: bool)
        ensures
            r == clients_contain(self@, addr),
    {
        self.position(addr).is_some()
    }

    /// Find-or-create: record the client if absent. Returns whether
    /// the association was created by this call, so the outbound
    /// socket is constructed at most once per client.
    pub fn ensure(&mut self, addr: SockAddr) -> (created: bool)
        requires
            old(self).wf(),
        ensures
            final(self).wf(),
            created == !clients_contain(old(self)@, addr),
            created ==> final(self)@ == old(self)@.push(addr),
            !created ==> final(self)@ == old(self)@,
            clients_contain(final(self)@, addr),
    {
        match self.position(addr) {
            Some(_) => false,
            None => {
                let ghost prev = self@;
                self.clients.push(addr);
                proof {
                    assert(self@ =~= prev.push(addr));
                    assert(self@[prev.len() as int] == addr);
                }
                true
            },
        }
    }

    /// Drop a client's association. Returns whether it existed;
    /// afterwards it does not, and every other association stays.
    pub fn remove(&mut self, addr: SockAddr) -> (r: bool)
        requires
            old(self).wf(),
        ensures
            final(self).wf(),
            r == clients_contain(old(self)@, addr),
            !clients_contain(final(self)@, addr),
            !r ==> final(self)@ == old(self)@,
            r ==> final(self)@.len() == old(self)@.len() - 1,
            forall|k: SockAddr| k != addr ==> clients_contain(final(self)@, k) == clients_contain(
                old(self)@,
                k,
            ),
    {
        match self.position(addr) {
            Some(i) => {
                let ghost prev = self@;
                self.clients.remove(i);
                proof {
                    assert(self@ =~= prev.remove(i as int));
                    assert forall|a: int, b: int| 0 <= a < b < self@.len() implies self@[a]
                        != self@[b] by {
                        let pa = if a < i { a } else { a + 1 };
                        let pb = if b < i { b } else { b + 1 };
                        assert(self@[a] == prev[pa]);
                        assert(self@[b] == prev[pb]);
                        assert(prev[pa] != prev[pb]);
                    }
                    assert forall|j: int| 0 <= j < self@.len() implies self@[j] != addr by {
                        let pj = if j < i { j } else { j + 1 };
                        assert(self@[j] == prev[pj]);
                        assert(prev[pj] != prev[i as int]);
                    }
                    assert forall|k: SockAddr| k != addr implies clients_contain(self@, k)
                        == clients_contain(prev, k) by {
                        if clients_contain(prev, k) {
                            let j = choose|j: int| 0 <= j < prev.len() && prev[j] == k;
                            assert(j != i);
                            let nj = if j < i { j } else { j - 1 };
                            assert(self@[nj] == prev[j]);
                        }
                        if clients_contain(self@, k) {
                            let j = choose|j: int| 0 <= j < self@.len() && self@[j] == k;
                            let pj = if j < i { j } else { j + 1 };
                            assert(prev[pj] == k);
                        }
                    }
                }
                true
            },
            None => false,
        }
    }
}


/// The metrics a client holds before an uplink is accounted: its
/// live entry, or a fresh one created with the association.
pub open spec fn spec_metrics_or_new(
    t: Seq<(SockAddr, ConnectionMetrics)>,
    client: SockAddr,
    now_micros: u64,
) -> ConnectionMetrics {
    match addr_lookup(t, client) {
        Some(m) => m,
        None => spec_new_metrics(now_micros),
    }
}

/// Forward-path step for one source group: find-or-create the
/// client's association and metrics entry, then account the group's
/// total payload as uplink traffic. Returns whether this call
/// created the association (and so must bind the outbound socket and
/// spawn the return-path task).
pub fn on_forward_group(
    sockmap: &mut SockMap,
    metrics: &mut UdpMetricsTable,
    client: SockAddr,
    total_bytes: u64,
    now_micros: u64,
) -> (created: bool)
    requires
        old(sockmap).wf(),
        old(metrics).wf(),
        spec_metrics_or_new(old(metrics)@, client, now_micros).traffic.tx_bytes + total_bytes
            <= u64::MAX,
    ensures
        final(sockmap).wf(),
        final(metrics).wf(),
        created == !clients_contain(old(sockmap)@, client),
        clients_contain(final(sockmap)@, client),
        created ==> final(sockmap)@ == old(sockmap)@.push(client),
        !created ==> final(sockmap)@ == old(sockmap)@,
        addr_lookup(final(metrics)@, client) == Some(
            spec_apply_op(
                spec_metrics_or_new(old(metrics)@, client, now_micros),
                MetricsOp::Tx(total_bytes),
            ),
        ),
        forall|k: SockAddr| k != client ==> addr_lookup(final(metrics)@, k) == addr_lookup(
            old(metrics)@,
            k,
        ),
{
    let created = sockmap.ensure(client);
    let mut m = match metrics.get(client) {
        Some(m) => m,
        None => {
            let fresh = ConnectionMetrics::new(now_micros);
            metrics.try_insert(client, fresh);
            fresh
        },
    };
    m.update_tx(total_bytes);
    let updated = metrics.set(client, m);
    proof {
        assert(updated);
    }
    created
}

/// Return-path accounting: one batch of `total_bytes` sent back to
/// the client becomes downlink traffic on its entry. Returns whether
/// the client still has an entry; without one nothing changes.
pub fn on_return_batch(metrics: &mut UdpMetricsTable, client: SockAddr, total_bytes: u64) -> (r:
    bool)
    requires
        old(metrics).wf(),
        match addr_lookup(old(metrics)@, client) {
            Some(m) => m.traffic.rx_bytes + total_bytes <= u64::MAX,
            None => true,
        },
    ensures
        final(metrics).wf(),
        r == addr_contains_key(old(metrics)@, client),
        r ==> addr_lookup(final(metrics)@, client) == Some(
            spec_apply_op(addr_lookup(old(metrics)@, client)->0, MetricsOp::Rx(total_bytes)),
        ),
        !r ==> final(metrics)@ == old(metrics)@,
        forall|k: SockAddr| k != client ==> addr_lookup(final(metrics)@, k) == addr_lookup(
            old(metrics)@,
            k,
        ),
{
    match metrics.get(client) {
        Some(m) => {
            let mut m2 = m;
            m2.update_rx(total_bytes);
            metrics.set(client, m2)
        },
        None => false,
    }
}

/// End of an association, on idle timeout, a receive failure, or a
/// fatal send error: the outbound socket is dropped (closed), and
/// both the association and the client's metrics entry are removed.
///
/// Law: after `associate_timeout` seconds without a datagram from
/// the remote, the return-path task terminates through this step, so
/// the client's `ConnectionMetrics` entry is gone and its outbound
/// socket closed.
pub fn end_association(sockmap: &mut SockMap, metrics: &mut UdpMetricsTable, client: SockAddr)
    requires
        old(sockmap).wf(),
        old(metrics).wf(),
    ensures
        final(sockmap).wf(),
        final(metrics).wf(),
        !clients_contain(final(sockmap)@, client),
        !addr_contains_key(final(metrics)@, client),
        forall|k: SockAddr| k != client ==> clients_contain(final(sockmap)@, k) == clients_contain(
            old(sockmap)@,
            k,
        ),
        forall|k: SockAddr| k != client ==> addr_lookup(final(metrics)@, k) == addr_lookup(
            old(metrics)@,
            k,
        ),
{
    sockmap.remove(client);
    metrics.remove(client);
}

} // verus!
