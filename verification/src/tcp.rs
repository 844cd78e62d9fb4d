//! TCP relay decisions: peer selection, the zero-copy fallback, and
//! per-connection metrics lifecycle.
//!
//! The sockets and the bidirectional copy itself live outside this
//! crate; what stands here is everything the relay decides: which
//! remote a connection goes to, what to do with a copy attempt's
//! outcome, and how the authoritative byte counts reach the metrics
//! registry exactly once.

use vstd::prelude::*;
use crate::balance::Token;
use crate::endpoint::RemoteAddr;
use crate::monitor::{ConnectionMetrics, MetricsOp, spec_apply_op, spec_new_metrics};
use crate::registry::{TcpMetricsTable, lemma_str_index_of_unique, str_contains_key, str_lookup};

verus! {

/// Resolve a balancer token to the remote it names: token 0 and "no
/// peers" mean the primary remote, token `k > 0` the extra remote
/// `k - 1`.
pub fn select_remote<'a>(
    token: Option<Token>,
    primary: &'a RemoteAddr,
    extras: &'a Vec<RemoteAddr>,
) -> (r: &'a RemoteAddr)
    requires
        match token {
            Some(t) => t.0 == 0 || t.0 as int <= extras@.len(),
            None => true,
        },
    ensures
        match token {
            None => *r == *primary,
            Some(t) => if t.0 == 0 {
                *r == *primary
            } else {
                *r == extras@[t.0 as int - 1]
            },
        },
{
    match token {
        None => primary,
        Some(t) => {
            if t.0 == 0 {
                primary
            } else {
                &extras[(t.0 - 1) as usize]
            }
        },
    }
}

/// What one bidirectional-copy attempt reported: the final byte
/// counts `(client to remote, remote to client)`, a rejection of the
/// zero-copy path, or another failure.
#[derive(Debug, Clone, Copy, PartialEq, Eq, Structural)]
pub enum CopyAttempt {
    Done(u64, u64),
    FailedInvalidInput,
    FailedOther,
}

/// What the relay does next with that attempt.
#[derive(Debug, Clone, Copy, PartialEq, Eq, Structural)]
pub enum RelayAction {
    Account(u64, u64),
    RetryBuffered,
    Fail,
}

/// The zero-copy fallback rule: account a completed copy's counts
/// once; fall back to the buffered copy only when the zero-copy path
/// rejected its input; give up on any other failure.
pub fn relay_decision(attempt: CopyAttempt) -> (r: RelayAction)
    ensures
        match attempt {
            CopyAttempt::Done(tx, rx) => r == RelayAction::Account(tx, rx),
            CopyAttempt::FailedInvalidInput => r == RelayAction::RetryBuffered,
            CopyAttempt::FailedOther => r == RelayAction::Fail,
        },
{
    match attempt {
        CopyAttempt::Done(tx, rx) => RelayAction::Account(tx, rx),
        CopyAttempt::FailedInvalidInput => RelayAction::RetryBuffered,
        CopyAttempt::FailedOther => RelayAction::Fail,
    }
}

/// Relies on `uuid::Uuid::new_v4` and its display form: a random
/// version-4 UUID printed as 36 hyphenated lowercase hex characters.
/// The value is random, so nothing is assumed beyond its length.
#[verifier::external_body]
fn fresh_conn_id() -> (r: String)
    ensures
        r@.len() == 36,
{
    uuid::Uuid::new_v4().to_string()
}

/// Mint a connection-id and insert fresh metrics for it, just before
/// the bidirectional copy begins. The id is random: if it collides
/// with a live connection, nothing changes and no id is returned.
pub fn open_connection(table: &mut TcpMetricsTable, now_micros: u64) -> (r: Option<String>)
    requires
        old(table).wf(),
    ensures
        final(table).wf(),
        match r {
            Some(id) => id@.len() == 36 && !str_contains_key(old(table)@, id@) && final(table)@
                == old(table)@.push((id@, spec_new_metrics(now_micros))) && str_lookup(
                final(table)@,
                id@,
            ) == Some(spec_new_metrics(now_micros)),
            None => final(table)@ == old(table)@,
        },
{
    let id = fresh_conn_id();
    let m = ConnectionMetrics::new(now_micros);
    let ghost prev = table@;
    if table.try_insert(id.clone(), m) {
        proof {
            lemma_str_index_of_unique(table@, id@, prev.len() as int);
        }
        Some(id)
    } else {
        None
    }
}

/// Account the copy's authoritative `(tx, rx)` return value on the
/// connection's entry, once, at termination. Returns whether the
/// entry was still present.
pub fn account_connection(table: &mut TcpMetricsTable, id: &String, tx: u64, rx: u64) -> (r: bool)
    requires
        old(table).wf(),
        match str_lookup(old(table)@, id@) {
            Some(m) => m.traffic.tx_bytes + tx <= u64::MAX && m.traffic.rx_bytes + rx
                <= u64::MAX,
            None => true,
        },
    ensures
        final(table).wf(),
        r == str_contains_key(old(table)@, id@),
        r ==> str_lookup(final(table)@, id@) == Some(
            spec_apply_op(
                spec_apply_op(str_lookup(old(table)@, id@)->0, MetricsOp::Tx(tx)),
                MetricsOp::Rx(rx),
            ),
        ),
        !r ==> final(table)@ == old(table)@,
        forall|k: Seq<char>| k != id@ ==> str_lookup(final(table)@, k) == str_lookup(
            old(table)@,
            k,
        ),
{
    match table.get(id) {
        Some(m) => {
            let mut m2 = m;
            m2.update_tx(tx);
            m2.update_rx(rx);
            table.set(id, m2)
        },
        None => false,
    }
}

/// Remove the connection's entry when the relay returns, success or
/// failure. Returns whether it was present; afterwards it is not.
pub fn close_connection(table: &mut TcpMetricsTable, id: &String) -> (r: bool)
    requires
        old(table).wf(),
    ensures
        final(table).wf(),
        r == str_contains_key(old(table)@, id@),
        !str_contains_key(final(table)@, id@),
        !r ==> final(table)@ == old(table)@,
        forall|k: Seq<char>| k != id@ ==> str_lookup(final(table)@, k) == str_lookup(
            old(table)@,
            k,
        ),
{
    table.remove(id)
}

} // verus!
