//! Per-flow traffic counters and rate computation.
//!
//! A [`ConnectionMetrics`] value describes one relayed flow: total
//! bytes in each direction, the moment the flow started, and the last
//! rate snapshot. Time enters every operation as a caller-supplied
//! microsecond timestamp, so the whole module is a pure state machine
//! over plain integers.

use vstd::prelude::*;

verus! {

/// Microseconds per second, the resolution of all timestamps here.
pub const MICROS_PER_SECOND: u64 = 1_000_000;

/// Traffic counters for one relayed flow, in bytes.
///
/// `tx_bytes` counts bytes from the local client toward the remote,
/// `rx_bytes` bytes from the remote back to the client. Both are
/// monotonically non-decreasing over the life of an entry.
#[derive(Debug, Clone, Copy, PartialEq, Eq, Structural)]
pub struct TrafficStats {
    pub tx_bytes: u64,
    pub rx_bytes: u64,
}

impl TrafficStats {
    pub fn new() -> (r: TrafficStats)
        ensures
            r == (TrafficStats { tx_bytes: 0, rx_bytes: 0 }),
    {
        TrafficStats { tx_bytes: 0, rx_bytes: 0 }
    }
}

impl Default for TrafficStats {
    fn default() -> (r: TrafficStats)
        ensures
            r == (TrafficStats { tx_bytes: 0, rx_bytes: 0 }),
    {
        TrafficStats { tx_bytes: 0, rx_bytes: 0 }
    }
}

/// Metrics of one flow: totals, start time, and the state of the
/// periodic rate computation. Speeds are in bits per second.
#[derive(Debug, Clone, Copy, PartialEq, Eq, Structural)]
pub struct ConnectionMetrics {
    pub traffic: TrafficStats,
    pub start_time_micros: u64,
    pub last_tx_bytes: u64,
    pub last_rx_bytes: u64,
    pub last_speed_update_micros: u64,
    pub upload_speed_bps: u64,
    pub download_speed_bps: u64,
}

/// `a - b`, stopping at zero.
pub open spec fn spec_saturating_sub(a: u64, b: u64) -> u64 {
    if a >= b {
        (a - b) as u64
    } else {
        0
    }
}

/// Rate in bits per second for `diff` bytes over `delta_micros`
/// microseconds, stopping at `u64::MAX`.
pub open spec fn spec_speed_bps(diff: u64, delta_micros: u64) -> u64
    recommends
        delta_micros >= 1,
{
    let bits_per_sec = (diff * 8 * MICROS_PER_SECOND) / (delta_micros as int);
    if bits_per_sec > u64::MAX {
        u64::MAX
    } else {
        bits_per_sec as u64
    }
}

/// The metrics of a freshly opened flow at time `now_micros`.
pub open spec fn spec_new_metrics(now_micros: u64) -> ConnectionMetrics {
    ConnectionMetrics {
        traffic: TrafficStats { tx_bytes: 0, rx_bytes: 0 },
        start_time_micros: now_micros,
        last_tx_bytes: 0,
        last_rx_bytes: 0,
        last_speed_update_micros: now_micros,
        upload_speed_bps: 0,
        download_speed_bps: 0,
    }
}

/// One rate recomputation at time `now_micros`: if less than one
/// microsecond has elapsed since the last snapshot the rate is
/// undefined and nothing changes; otherwise both speeds are computed
/// from the byte deltas and the snapshot is advanced.
pub open spec fn spec_calculate_speed(m: ConnectionMetrics, now_micros: u64) -> ConnectionMetrics {
    if now_micros < m.last_speed_update_micros + 1 {
        m
    } else {
        let delta = spec_saturating_sub(now_micros, m.last_speed_update_micros);
        let tx_diff = spec_saturating_sub(m.traffic.tx_bytes, m.last_tx_bytes);
        let rx_diff = spec_saturating_sub(m.traffic.rx_bytes, m.last_rx_bytes);
        ConnectionMetrics {
            traffic: m.traffic,
            start_time_micros: m.start_time_micros,
            last_tx_bytes: m.traffic.tx_bytes,
            last_rx_bytes: m.traffic.rx_bytes,
            last_speed_update_micros: now_micros,
            upload_speed_bps: spec_speed_bps(tx_diff, delta),
            download_speed_bps: spec_speed_bps(rx_diff, delta),
        }
    }
}

/// One mutation of a flow's metrics: bytes sent toward the remote,
/// bytes received from it, or a rate recomputation at a given time.
pub enum MetricsOp {
    Tx(u64),
    Rx(u64),
    Speed(u64),
}

/// The transition function of [`ConnectionMetrics`]. Counter
/// additions stop at `u64::MAX` so that every operation is total.
pub open spec fn spec_apply_op(m: ConnectionMetrics, op: MetricsOp) -> ConnectionMetrics {
    match op {
        MetricsOp::Tx(bytes) => ConnectionMetrics {
            traffic: TrafficStats {
                tx_bytes: if m.traffic.tx_bytes + bytes <= u64::MAX {
                    (m.traffic.tx_bytes + bytes) as u64
                } else {
                    u64::MAX
                },
                rx_bytes: m.traffic.rx_bytes,
            },
            ..m
        },
        MetricsOp::Rx(bytes) => ConnectionMetrics {
            traffic: TrafficStats {
                tx_bytes: m.traffic.tx_bytes,
                rx_bytes: if m.traffic.rx_bytes + bytes <= u64::MAX {
                    (m.traffic.rx_bytes + bytes) as u64
                } else {
                    u64::MAX
                },
            },
            ..m
        },
        MetricsOp::Speed(now_micros) => spec_calculate_speed(m, now_micros),
    }
}

/// A whole history of mutations, applied in order.
pub open spec fn spec_apply_ops(m: ConnectionMetrics, ops: Seq<MetricsOp>) -> ConnectionMetrics
    decreases ops.len(),
{
    if ops.len() == 0 {
        m
    } else {
        spec_apply_op(spec_apply_ops(m, ops.drop_last()), ops.last())
    }
}

impl ConnectionMetrics {
    /// Fresh metrics for a flow opened at `now_micros`.
    pub fn new(now_micros: u64) -> (r: ConnectionMetrics)
        ensures
            r == spec_new_metrics(now_micros),
    {
        ConnectionMetrics {
            traffic: TrafficStats::new(),
            start_time_micros: now_micros,
            last_tx_bytes: 0,
            last_rx_bytes: 0,
            last_speed_update_micros: now_micros,
            upload_speed_bps: 0,
            download_speed_bps: 0,
        }
    }

    /// Account `bytes` sent from the client toward the remote.
    pub fn update_tx(&mut self, bytes: u64)
        requires
            old(self).traffic.tx_bytes + bytes <= u64::MAX,
        ensures
            *final(self) == spec_apply_op(*old(self), MetricsOp::Tx(bytes)),
            final(self).traffic.tx_bytes == old(self).traffic.tx_bytes + bytes,
            final(self).traffic.rx_bytes == old(self).traffic.rx_bytes,
    {
        self.traffic.tx_bytes = self.traffic.tx_bytes + bytes;
    }

    /// Account `bytes` received from the remote for the client.
    pub fn update_rx(&mut self, bytes: u64)
        requires
            old(self).traffic.rx_bytes + bytes <= u64::MAX,
        ensures
            *final(self) == spec_apply_op(*old(self), MetricsOp::Rx(bytes)),
            final(self).traffic.rx_bytes == old(self).traffic.rx_bytes + bytes,
            final(self).traffic.tx_bytes == old(self).traffic.tx_bytes,
    {
        self.traffic.rx_bytes = self.traffic.rx_bytes + bytes;
    }

    /// Recompute both rates at `now_micros`; see [`spec_calculate_speed`].
    pub fn calculate_speed(&mut self, now_micros: u64)
        ensures
            *final(self) == spec_calculate_speed(*old(self), now_micros),
            final(self).traffic == old(self).traffic,
    {
        if now_micros < self.last_speed_update_micros || now_micros - self.last_speed_update_micros
            < 1 {
            return ;
        }
        let delta: u64 = now_micros - self.last_speed_update_micros;
        let tx_diff: u64 = saturating_sub(self.traffic.tx_bytes, self.last_tx_bytes);
        let rx_diff: u64 = saturating_sub(self.traffic.rx_bytes, self.last_rx_bytes);
        self.upload_speed_bps = speed_bps(tx_diff, delta);
        self.download_speed_bps = speed_bps(rx_diff, delta);
        self.last_tx_bytes = self.traffic.tx_bytes;
        self.last_rx_bytes = self.traffic.rx_bytes;
        self.last_speed_update_micros = now_micros;
    }

    /// Whole seconds this flow has been alive at `now_micros`.
    pub fn uptime_seconds(&self, now_micros: u64) -> (r: u64)
        ensures
            r == spec_saturating_sub(now_micros, self.start_time_micros) / MICROS_PER_SECOND,
    {
        saturating_sub(now_micros, self.start_time_micros) / MICROS_PER_SECOND
    }
}

/// `a - b`, stopping at zero.
pub fn saturating_sub(a: u64, b: u64) -> (r: u64)
    ensures
        r == spec_saturating_sub(a, b),
{
    if a >= b {
        a - b
    } else {
        0
    }
}

/// Rate in bits per second; see [`spec_speed_bps`].
pub fn speed_bps(diff: u64, delta_micros: u64) -> (r: u64)
    requires
        delta_micros >= 1,
    ensures
        r == spec_speed_bps(diff, delta_micros),
{
    proof {
        assert((diff as u128) * 8 * (MICROS_PER_SECOND as u128) <= (u64::MAX as u128) * 8 * (
        MICROS_PER_SECOND as u128)) by (nonlinear_arith)
            requires
                diff <= u64::MAX,
        ;
    }
    let bits: u128 = (diff as u128) * 8 * (MICROS_PER_SECOND as u128) / (delta_micros as u128);
    if bits > u64::MAX as u128 {
        u64::MAX
    } else {
        bits as u64
    }
}

/// Law: within one entry's lifetime, `tx_bytes` and `rx_bytes` never
/// decrease, whatever mutations are applied in whatever order.
pub proof fn lemma_counters_monotonic(m: ConnectionMetrics, ops: Seq<MetricsOp>)
    ensures
        spec_apply_ops(m, ops).traffic.tx_bytes >= m.traffic.tx_bytes,
        spec_apply_ops(m, ops).traffic.rx_bytes >= m.traffic.rx_bytes,
    decreases ops.len(),
{
    if ops.len() > 0 {
        lemma_counters_monotonic(m, ops.drop_last());
    }
}

/// Total payload of a sequence of transfers.
pub open spec fn spec_sum(s: Seq<u64>) -> int
    decreases s.len(),
{
    if s.len() == 0 {
        0
    } else {
        spec_sum(s.drop_last()) + s.last()
    }
}

/// All transfers of `s` accounted one by one in the `tx` direction.
pub open spec fn spec_tx_ops(s: Seq<u64>) -> Seq<MetricsOp> {
    s.map_values(|b: u64| MetricsOp::Tx(b))
}

/// All transfers of `s` accounted one by one in the `rx` direction.
pub open spec fn spec_rx_ops(s: Seq<u64>) -> Seq<MetricsOp> {
    s.map_values(|b: u64| MetricsOp::Rx(b))
}

proof fn lemma_tx_batches_sum(m: ConnectionMetrics, s: Seq<u64>)
    requires
        m.traffic.tx_bytes + spec_sum(s) <= u64::MAX,
    ensures
        spec_apply_ops(m, spec_tx_ops(s)).traffic.tx_bytes == m.traffic.tx_bytes + spec_sum(s),
        spec_apply_ops(m, spec_tx_ops(s)).traffic.rx_bytes == m.traffic.rx_bytes,
    decreases s.len(),
{
    if s.len() > 0 {
        lemma_sum_nonnegative(s.drop_last());
        assert(spec_tx_ops(s).drop_last() =~= spec_tx_ops(s.drop_last()));
        lemma_tx_batches_sum(m, s.drop_last());
    }
}

proof fn lemma_rx_batches_sum(m: ConnectionMetrics, s: Seq<u64>)
    requires
        m.traffic.rx_bytes + spec_sum(s) <= u64::MAX,
    ensures
        spec_apply_ops(m, spec_rx_ops(s)).traffic.rx_bytes == m.traffic.rx_bytes + spec_sum(s),
        spec_apply_ops(m, spec_rx_ops(s)).traffic.tx_bytes == m.traffic.tx_bytes,
    decreases s.len(),
{
    if s.len() > 0 {
        lemma_sum_nonnegative(s.drop_last());
        assert(spec_rx_ops(s).drop_last() =~= spec_rx_ops(s.drop_last()));
        lemma_rx_batches_sum(m, s.drop_last());
    }
}

pub proof fn lemma_sum_nonnegative(s: Seq<u64>)
    ensures
        spec_sum(s) >= 0,
    decreases s.len(),
{
    if s.len() > 0 {
        lemma_sum_nonnegative(s.drop_last());
    }
}

/// Law: TCP accounting is exact. For a connection whose bidirectional
/// copy moved `n` bytes toward the remote and `m` bytes back, a fresh
/// entry accounted once holds exactly `(n, m)`, however the stream was
/// packetized: the copy's return value is authoritative, so chunking
/// never reaches the counters.
pub proof fn lemma_tcp_accounting_exact(now_micros: u64, n: u64, m: u64)
    ensures
        spec_apply_ops(
            spec_new_metrics(now_micros),
            seq![MetricsOp::Tx(n), MetricsOp::Rx(m)],
        ).traffic == (TrafficStats { tx_bytes: n, rx_bytes: m }),
{
    let m0 = spec_new_metrics(now_micros);
    let ops = seq![MetricsOp::Tx(n), MetricsOp::Rx(m)];
    let ops1 = seq![MetricsOp::Tx(n)];
    assert(ops.drop_last() =~= ops1);
    assert(ops1.drop_last() =~= Seq::<MetricsOp>::empty());
    assert(spec_apply_ops(m0, Seq::<MetricsOp>::empty()) == m0);
    assert(spec_apply_ops(m0, ops1) == spec_apply_op(m0, MetricsOp::Tx(n)));
    assert(spec_apply_ops(m0, ops) == spec_apply_op(
        spec_apply_op(m0, MetricsOp::Tx(n)),
        MetricsOp::Rx(m),
    ));
}

/// Law: UDP accounting is exact. For `k` forward datagrams of total
/// payload `p` and `j` return datagrams of total payload `q`, all
/// accounted batch by batch within the association's life, a fresh
/// entry ends at exactly `(p, q)`.
pub proof fn lemma_udp_accounting_exact(now_micros: u64, fwd: Seq<u64>, ret: Seq<u64>)
    requires
        spec_sum(fwd) <= u64::MAX,
        spec_sum(ret) <= u64::MAX,
    ensures
        spec_apply_ops(
            spec_new_metrics(now_micros),
            spec_tx_ops(fwd) + spec_rx_ops(ret),
        ).traffic == (TrafficStats {
            tx_bytes: spec_sum(fwd) as u64,
            rx_bytes: spec_sum(ret) as u64,
        }),
{
    lemma_sum_nonnegative(fwd);
    lemma_sum_nonnegative(ret);
    let m0 = spec_new_metrics(now_micros);
    let m1 = spec_apply_ops(m0, spec_tx_ops(fwd));
    lemma_tx_batches_sum(m0, fwd);
    lemma_rx_batches_sum(m1, ret);
    lemma_apply_ops_concat(m0, spec_tx_ops(fwd), spec_rx_ops(ret));
}

/// Applying two histories in turn is applying their concatenation.
pub proof fn lemma_apply_ops_concat(m: ConnectionMetrics, a: Seq<MetricsOp>, b: Seq<MetricsOp>)
    ensures
        spec_apply_ops(m, a + b) == spec_apply_ops(spec_apply_ops(m, a), b),
    decreases b.len(),
{
    if b.len() == 0 {
        assert(a + b =~= a);
    } else {
        assert((a + b).drop_last() =~= a + b.drop_last());
        lemma_apply_ops_concat(m, a, b.drop_last());
    }
}

} // verus!
