//! The control plane's decision logic.
//!
//! The HTTP server, JSON bodies and headers live outside this crate;
//! every endpoint's behavior — who is let in, which status a request
//! earns, what the response body holds — is decided here over plain
//! values, so each decision carries a contract.

use vstd::prelude::*;
use crate::addr::{SockAddr, spec_parse_sock_addr, parse_sock_addr};
use crate::endpoint::{EndpointConf, EndpointInfo};
use crate::monitor::{ConnectionMetrics, MICROS_PER_SECOND, spec_saturating_sub};
use crate::registry::{
    RuleRegistry, TcpMetricsTable, UdpMetricsTable, addr_lookup, rule_ids_contain,
    str_contains_key, str_lookup,
};

verus! {

/// The body of a stats response: totals, current rates, and the
/// flow's age in whole seconds at the time of the request.
#[derive(Debug, Clone, Copy, PartialEq, Eq, Structural)]
pub struct TrafficStatsResponse {
    pub tx_bytes: u64,
    pub rx_bytes: u64,
    pub upload_speed_bps: u64,
    pub download_speed_bps: u64,
    pub uptime_seconds: u64,
}

/// The stats body for one flow's metrics, read at `now_micros`.
pub open spec fn spec_stats_response(m: ConnectionMetrics, now_micros: u64) -> TrafficStatsResponse {
    TrafficStatsResponse {
        tx_bytes: m.traffic.tx_bytes,
        rx_bytes: m.traffic.rx_bytes,
        upload_speed_bps: m.upload_speed_bps,
        download_speed_bps: m.download_speed_bps,
        uptime_seconds: (spec_saturating_sub(now_micros, m.start_time_micros)
            / MICROS_PER_SECOND) as u64,
    }
}

/// Build the stats body of one flow; see [`spec_stats_response`].
pub fn create_traffic_stats_response(m: &ConnectionMetrics, now_micros: u64) -> (r:
    TrafficStatsResponse)
    ensures
        r == spec_stats_response(*m, now_micros),
{
    TrafficStatsResponse {
        tx_bytes: m.traffic.tx_bytes,
        rx_bytes: m.traffic.rx_bytes,
        upload_speed_bps: m.upload_speed_bps,
        download_speed_bps: m.download_speed_bps,
        uptime_seconds: m.uptime_seconds(now_micros),
    }
}

/// The view of an optional header or token value.
pub open spec fn spec_opt_str(v: Option<String>) -> Option<Seq<char>> {
    match v {
        Some(s) => Some(s@),
        None => None,
    }
}

/// The authenticator's acceptance rule: with no token configured
/// every request passes; with token `t`, exactly the header value
/// `Bearer t` passes.
pub open spec fn spec_auth_ok(expected: Option<Seq<char>>, header: Option<Seq<char>>) -> bool {
    match expected {
        None => true,
        Some(t) => header == Some("Bearer "@ + t),
    }
}

/// Law: the authenticator admits exactly the right requests. With a
/// token configured, a request passes exactly when it carries the
/// literal header `Bearer <token>` — any missing or deviating header
/// is turned away with the challenge — and with no token configured,
/// every request passes.
pub proof fn lemma_auth_invariants(t: Seq<char>, header: Option<Seq<char>>)
    ensures
        spec_auth_ok(Some(t), header) <==> header == Some("Bearer "@ + t),
        spec_auth_ok(None, header),
{
}

/// The authentication middleware's state: the expected API token, if
/// one is configured.
pub struct Authenticate {
    expected_token: Option<String>,
}

impl Authenticate {
    /// The configured token.
    pub closed spec fn spec_token(&self) -> Option<Seq<char>> {
        spec_opt_str(self.expected_token)
    }

    pub fn new(expected_token: Option<String>) -> (r: Authenticate)
        ensures
            r.spec_token() == spec_opt_str(expected_token),
    {
        Authenticate { expected_token }
    }

    /// Decide one request from its `Authorization` header value;
    /// `false` stands for a 401 carrying the challenge header.
    pub fn allows(&self, auth_header: Option<&String>) -> (r: bool)
        ensures
            r == spec_auth_ok(
                self.spec_token(),
                match auth_header {
                    Some(h) => Some(h@),
                    None => None,
                },
            ),
    {
        match &self.expected_token {
            None => true,
            Some(t) => match auth_header {
                None => false,
                Some(h) => {
                    let expected_full = String::from_str("Bearer ").concat(t.as_str());
                    *h == expected_full
                },
            },
        }
    }
}

/// The challenge header value sent with every 401.
pub fn www_authenticate_value() -> (r: &'static str)
    ensures
        r@ == "Bearer realm=\"Realm API\""@,
{
    "Bearer realm=\"Realm API\""
}

/// Snapshot of the TCP metrics map: one `(connection-id, stats)`
/// pair per live connection, in table order.
pub fn list_tcp_connections(table: &TcpMetricsTable, now_micros: u64) -> (r: Vec<
    (String, TrafficStatsResponse),
>)
    ensures
        r@.len() == table@.len(),
        forall|i: int|
            0 <= i < r@.len() ==> (#[trigger] r@[i]).0@ == table@[i].0 && r@[i].1
                == spec_stats_response(table@[i].1, now_micros),
{
    let n = table.len();
    let mut out: Vec<(String, TrafficStatsResponse)> = Vec::new();
    let mut i: usize = 0;
    while i < n
        invariant
            0 <= i <= n,
            n == table@.len(),
            out@.len() == i,
            forall|j: int|
                0 <= j < i ==> (#[trigger] out@[j]).0@ == table@[j].0 && out@[j].1
                    == spec_stats_response(table@[j].1, now_micros),
        decreases n - i,
    {
        let (id, m) = table.entry_at(i);
        out.push((id, create_traffic_stats_response(&m, now_micros)));
        i = i + 1;
    }
    out
}

/// Stats for one TCP connection-id; `None` stands for 404.
pub fn get_tcp_connection_stats(table: &TcpMetricsTable, conn_id: &String, now_micros: u64) -> (r:
    Option<TrafficStatsResponse>)
    requires
        table.wf(),
    ensures
        match r {
            Some(resp) => str_contains_key(table@, conn_id@) && resp == spec_stats_response(
                str_lookup(table@, conn_id@)->0,
                now_micros,
            ),
            None => !str_contains_key(table@, conn_id@),
        },
{
    match table.get(conn_id) {
        Some(m) => Some(create_traffic_stats_response(&m, now_micros)),
        None => None,
    }
}

/// Snapshot of the UDP metrics map: one `(client address, stats)`
/// pair per live association, in table order.
pub fn list_udp_associations(table: &UdpMetricsTable, now_micros: u64) -> (r: Vec<
    (SockAddr, TrafficStatsResponse),
>)
    ensures
        r@.len() == table@.len(),
        forall|i: int|
            0 <= i < r@.len() ==> (#[trigger] r@[i]).0 == table@[i].0 && r@[i].1
                == spec_stats_response(table@[i].1, now_micros),
{
    let n = table.len();
    let mut out: Vec<(SockAddr, TrafficStatsResponse)> = Vec::new();
    let mut i: usize = 0;
    while i < n
        invariant
            0 <= i <= n,
            n == table@.len(),
            out@.len() == i,
            forall|j: int|
                0 <= j < i ==> (#[trigger] out@[j]).0 == table@[j].0 && out@[j].1
                    == spec_stats_response(table@[j].1, now_micros),
        decreases n - i,
    {
        let (addr, m) = table.entry_at(i);
        out.push((addr, create_traffic_stats_response(&m, now_micros)));
        i = i + 1;
    }
    out
}

/// Answer of the per-client UDP stats endpoint: the stats body, 404
/// for an unknown client, or 400 for a malformed address.
#[derive(Debug, Clone, Copy, PartialEq, Eq, Structural)]
pub enum UdpStatsAnswer {
    Found(TrafficStatsResponse),
    NotFound,
    BadRequest,
}

/// Stats for one UDP client, addressed by its textual form.
pub fn get_udp_association_stats(table: &UdpMetricsTable, client_addr: &str, now_micros: u64) -> (r:
    UdpStatsAnswer)
    requires
        table.wf(),
    ensures
        match spec_parse_sock_addr(client_addr@) {
            None => r == UdpStatsAnswer::BadRequest,
            Some(a) => match addr_lookup(table@, a) {
                Some(m) => r == UdpStatsAnswer::Found(spec_stats_response(m, now_micros)),
                None => r == UdpStatsAnswer::NotFound,
            },
        },
{
    match parse_sock_addr(client_addr) {
        None => UdpStatsAnswer::BadRequest,
        Some(a) => match table.get(a) {
            Some(m) => UdpStatsAnswer::Found(create_traffic_stats_response(&m, now_micros)),
            None => UdpStatsAnswer::NotFound,
        },
    }
}

/// Why a rule post was refused: a body that does not build (400), or
/// an id already registered (409).
#[derive(Debug, Clone, Copy, PartialEq, Eq, Structural)]
pub enum AddRuleError {
    InvalidEndpoint,
    Duplicate,
}

/// The `POST /rules` decision: build the endpoint from its textual
/// form, refuse a duplicate rule-id without side effects, else claim
/// the id and hand back the built endpoint for activation. A
/// duplicate never creates a worker.
pub fn add_rule(registry: &mut RuleRegistry, conf: &EndpointConf) -> (r: Result<
    EndpointInfo,
    AddRuleError,
>)
    requires
        old(registry).wf(),
    ensures
        final(registry).wf(),
        match r {
            Ok(info) => {
                &&& conf.spec_buildable()
                &&& !rule_ids_contain(old(registry)@, conf.endpoint@)
                &&& final(registry)@ == old(registry)@.push(conf.endpoint@)
                &&& info.wf()
                &&& Some(info.endpoint.laddr) == spec_parse_sock_addr(conf.endpoint@)
                &&& info.no_tcp == conf.no_tcp
                &&& info.use_udp == conf.use_udp
            },
            Err(AddRuleError::InvalidEndpoint) => !conf.spec_buildable() && final(registry)@
                == old(registry)@,
            Err(AddRuleError::Duplicate) => conf.spec_buildable() && rule_ids_contain(
                old(registry)@,
                conf.endpoint@,
            ) && final(registry)@ == old(registry)@,
        },
{
    let info = match conf.build() {
        Ok(info) => info,
        Err(_) => {
            return Err(AddRuleError::InvalidEndpoint);
        },
    };
    if registry.try_add(conf.endpoint.clone()) {
        Ok(info)
    } else {
        Err(AddRuleError::Duplicate)
    }
}

/// The `DELETE /rules/{id}` decision: drop the registry entry — the
/// rule's life token — so its worker tears down. Returns whether the
/// id existed (`true` stands for 200, `false` for 404); afterwards
/// the id is free again.
pub fn delete_rule(registry: &mut RuleRegistry, id: &String) -> (r: bool)
    requires
        old(registry).wf(),
    ensures
        final(registry).wf(),
        r == rule_ids_contain(old(registry)@, id@),
        !rule_ids_contain(final(registry)@, id@),
        !r ==> final(registry)@ == old(registry)@,
        forall|k: Seq<char>| k != id@ ==> rule_ids_contain(final(registry)@, k)
            == rule_ids_contain(old(registry)@, k),
{
    registry.remove(id)
}

/// Undo a rule registration whose activation failed (the 500 path):
/// the id is released so the rule can be posted again.
pub fn rollback_rule(registry: &mut RuleRegistry, id: &String) -> (r: bool)
    requires
        old(registry).wf(),
    ensures
        final(registry).wf(),
        r == rule_ids_contain(old(registry)@, id@),
        !rule_ids_contain(final(registry)@, id@),
        forall|k: Seq<char>| k != id@ ==> rule_ids_contain(final(registry)@, k)
            == rule_ids_contain(old(registry)@, k),
{
    registry.remove(id)
}

/// The API bind host: as configured, else the loopback default.
pub fn resolve_api_host(value: Option<String>) -> (r: String)
    ensures
        match value {
            Some(h) => r == h,
            None => r@ == "127.0.0.1"@,
        },
{
    match value {
        Some(h) => h,
        None => String::from_str("127.0.0.1"),
    }
}

/// The API bind port: the configured decimal value, else the default
/// 8080 — also on an unreadable or out-of-range value.
pub fn resolve_api_port(value: Option<&String>) -> (r: u16)
    ensures
        match value {
            None => r == 8080,
            Some(s) => match crate::text::spec_parse_decimal_lax(s@, 65535) {
                Some(v) => r == v,
                None => r == 8080,
            },
        },
{
    match value {
        None => 8080,
        Some(s) => match crate::text::parse_decimal_lax(s.as_str(), 65535) {
            Some(v) => v as u16,
            None => 8080,
        },
    }
}

/// The configured API token: unset or empty means the API is open.
pub fn resolve_api_token(value: Option<String>) -> (r: Option<String>)
    ensures
        match value {
            None => r is None,
            Some(t) => if t@.len() == 0 {
                r is None
            } else {
                r == Some(t)
            },
        },
{
    match value {
        None => None,
        Some(t) => {
            if t.as_str().unicode_len() == 0 {
                None
            } else {
                Some(t)
            }
        },
    }
}


/// Body of `POST /rules`: the endpoint to create.
#[derive(Debug, Clone)]
pub struct AddEndpointRequest {
    pub endpoint: EndpointConf,
}

/// The request logger's policy. The logger itself writes at the
/// HTTP edge; what stands here is its one rule: which request
/// headers may be logged.
pub struct RequestLogger;

impl RequestLogger {
    /// The `Authorization` header is never logged.
    pub fn header_loggable(name: &str) -> (r: bool)
        ensures
            r == (name@ != "authorization"@),
    {
        let lhs = String::from_str(name);
        let rhs = String::from_str("authorization");
        !(lhs == rhs)
    }
}

} // verus!
