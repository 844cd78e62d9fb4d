//! Relay endpoints: the in-memory description of one rule.
//!
//! An endpoint names a local listening address, a primary remote,
//! optional extra remotes for the balancer, and the bind and connect
//! options applied to its sockets. A rule arrives as text (from the
//! configuration or a control-plane request body) in an
//! [`EndpointConf`], whose `build` validates it into an
//! [`EndpointInfo`] or rejects it.

use vstd::prelude::*;
use crate::addr::{SockAddr, spec_parse_sock_addr, parse_sock_addr};
use crate::balance::{Balancer, Strategy, spec_parse_balancer};
use crate::errors::ConfigError;
use crate::text::{spec_rfind, rfind_char, spec_parse_decimal, parse_decimal};

verus! {

/// Remote address: a literal socket address, or a hostname and port
/// whose resolution is deferred to the point of use.
#[derive(Debug, Clone)]
pub enum RemoteAddr {
    SocketAddr(SockAddr),
    DomainName(String, u16),
}

/// A remote-address string is readable: a literal socket address,
/// or `host:port` with a non-empty host before the last colon and a
/// strict port after it.
pub open spec fn spec_remote_parses(s: Seq<char>) -> bool {
    match spec_parse_sock_addr(s) {
        Some(_) => true,
        None => match spec_rfind(s, ':') {
            Some(i) => i > 0 && spec_parse_decimal(s.skip(i + 1), 65535) is Some,
            None => false,
        },
    }
}

/// `r` is what the remote-address string `s` describes.
pub open spec fn spec_remote_matches(r: RemoteAddr, s: Seq<char>) -> bool {
    match spec_parse_sock_addr(s) {
        Some(a) => r == RemoteAddr::SocketAddr(a),
        None => match spec_rfind(s, ':') {
            Some(i) => {
                let port = spec_parse_decimal(s.skip(i + 1), 65535);
                &&& i > 0
                &&& port is Some
                &&& match r {
                    RemoteAddr::DomainName(h, p) => h@ == s.take(i) && p == port->0,
                    _ => false,
                }
            },
            None => false,
        },
    }
}

/// Read a remote address; see [`spec_remote_matches`].
pub fn parse_remote_addr(s: &str) -> (r: Option<RemoteAddr>)
    ensures
        match r {
            Some(ra) => spec_remote_matches(ra, s@) && spec_remote_parses(s@),
            None => !spec_remote_parses(s@),
        },
{
    match parse_sock_addr(s) {
        Some(a) => Some(RemoteAddr::SocketAddr(a)),
        None => {
            let n = s.unicode_len();
            match rfind_char(s, ':') {
                None => None,
                Some(i) => {
                    if i == 0 {
                        return None;
                    }
                    let port = parse_decimal(s.substring_char(i + 1, n), 65535);
                    proof {
                        assert(s@.skip(i + 1) =~= s@.subrange(i + 1, n as int));
                    }
                    match port {
                        None => None,
                        Some(p) => {
                            let host = s.substring_char(0, i);
                            proof {
                                assert(s@.take(i as int) =~= s@.subrange(0, i as int));
                            }
                            Some(RemoteAddr::DomainName(String::from_str(host), p as u16))
                        },
                    }
                },
            }
        },
    }
}

/// Proxy protocol options.
#[derive(Debug, Clone, Copy, PartialEq, Eq, Structural)]
pub struct ProxyOpts {
    pub send_proxy: bool,
    pub accept_proxy: bool,
    pub send_proxy_version: usize,
    pub accept_proxy_timeout: usize,
}

impl ProxyOpts {
    /// Whether any proxy-protocol handling is configured.
    pub fn enabled(&self) -> (r: bool)
        ensures
            r == (self.send_proxy || self.accept_proxy),
    {
        self.send_proxy || self.accept_proxy
    }
}

impl Default for ProxyOpts {
    fn default() -> (r: ProxyOpts)
        ensures
            r == (ProxyOpts {
                send_proxy: false,
                accept_proxy: false,
                send_proxy_version: 0,
                accept_proxy_timeout: 0,
            }),
    {
        ProxyOpts { send_proxy: false, accept_proxy: false, send_proxy_version: 0, accept_proxy_timeout: 0 }
    }
}

/// Connect or associate options, applied per outbound connection.
/// Timeouts are in seconds; zero disables the timeout.
#[derive(Debug, Clone)]
pub struct ConnectOpts {
    pub connect_timeout: usize,
    pub associate_timeout: usize,
    pub tcp_keepalive: usize,
    pub tcp_keepalive_probe: usize,
    pub bind_address: Option<SockAddr>,
    pub bind_interface: Option<String>,
    pub proxy_opts: ProxyOpts,
    pub balancer: Balancer,
}

impl Default for ConnectOpts {
    fn default() -> (r: ConnectOpts)
        ensures
            r.connect_timeout == 0,
            r.associate_timeout == 0,
            r.tcp_keepalive == 0,
            r.tcp_keepalive_probe == 0,
            (r.bind_address is None),
            (r.bind_interface is None),
            r.proxy_opts == (ProxyOpts {
                send_proxy: false,
                accept_proxy: false,
                send_proxy_version: 0,
                accept_proxy_timeout: 0,
            }),
            r.balancer == Balancer::Off,
    {
        ConnectOpts {
            connect_timeout: 0,
            associate_timeout: 0,
            tcp_keepalive: 0,
            tcp_keepalive_probe: 0,
            bind_address: None,
            bind_interface: None,
            proxy_opts: Default::default(),
            balancer: Balancer::Off,
        }
    }
}

/// Options applied once when the listening socket is created.
#[derive(Debug, Clone)]
pub struct BindOpts {
    pub ipv6_only: bool,
    pub bind_interface: Option<String>,
}

impl Default for BindOpts {
    fn default() -> (r: BindOpts)
        ensures
            r.ipv6_only == false,
            (r.bind_interface is None),
    {
        BindOpts { ipv6_only: false, bind_interface: None }
    }
}

/// Relay endpoint: one rule's listening address and remotes. The
/// primary remote is index 0 of the selection space; extras begin at
/// index 1. Immutable after creation.
#[derive(Debug, Clone)]
pub struct Endpoint {
    pub laddr: SockAddr,
    pub raddr: RemoteAddr,
    pub bind_opts: BindOpts,
    pub conn_opts: ConnectOpts,
    pub extra_raddrs: Vec<RemoteAddr>,
}

/// An endpoint with its transport switches. At least one of TCP or
/// UDP must be enabled.
#[derive(Debug, Clone)]
pub struct EndpointInfo {
    pub endpoint: Endpoint,
    pub no_tcp: bool,
    pub use_udp: bool,
}

impl EndpointInfo {
    /// At least one transport serves the rule.
    pub open spec fn wf(&self) -> bool {
        !self.no_tcp || self.use_udp
    }
}

/// The textual form of an endpoint, as the configuration or a
/// control-plane request carries it. The `endpoint` field is the
/// local address string and doubles as the rule id.
#[derive(Debug, Clone)]
pub struct EndpointConf {
    pub endpoint: String,
    pub remote: String,
    pub extra_remotes: Vec<String>,
    pub balance: Option<String>,
    pub no_tcp: bool,
    pub use_udp: bool,
    pub connect_timeout: usize,
    pub associate_timeout: usize,
}

impl EndpointConf {
    /// Every field is readable and the rule enables a transport.
    pub open spec fn spec_buildable(&self) -> bool {
        &&& spec_parse_sock_addr(self.endpoint@) is Some
        &&& spec_remote_parses(self.remote@)
        &&& forall|i: int|
            0 <= i < self.extra_remotes@.len() ==> spec_remote_parses(
                (#[trigger] self.extra_remotes@[i])@,
            )
        &&& match self.balance {
            Some(b) => spec_parse_balancer(b@) is Some,
            None => true,
        }
        &&& (!self.no_tcp || self.use_udp)
    }

    /// Validate the configuration into a runnable endpoint: the
    /// local address must be a literal socket address, every remote
    /// readable, the balancer string well-formed, and at least one
    /// transport enabled; otherwise the whole rule is rejected.
    pub fn build(&self) -> (r: Result<EndpointInfo, ConfigError>)
        ensures
            r is Ok <==> self.spec_buildable(),
            match r {
                Ok(info) => {
                    &&& info.wf()
                    &&& info.no_tcp == self.no_tcp
                    &&& info.use_udp == self.use_udp
                    &&& Some(info.endpoint.laddr) == spec_parse_sock_addr(self.endpoint@)
                    &&& spec_remote_matches(info.endpoint.raddr, self.remote@)
                    &&& info.endpoint.extra_raddrs@.len() == self.extra_remotes@.len()
                    &&& forall|i: int|
                        0 <= i < self.extra_remotes@.len() ==> spec_remote_matches(
                            #[trigger] info.endpoint.extra_raddrs@[i],
                            self.extra_remotes@[i]@,
                        )
                    &&& info.endpoint.conn_opts.connect_timeout == self.connect_timeout
                    &&& info.endpoint.conn_opts.associate_timeout == self.associate_timeout
                    &&& match self.balance {
                        Some(b) => {
                            let p = spec_parse_balancer(b@)->0;
                            &&& info.endpoint.conn_opts.balancer.wf()
                            &&& info.endpoint.conn_opts.balancer.spec_strategy() == p.0
                            &&& p.0 != Strategy::Off
                                ==> info.endpoint.conn_opts.balancer.spec_weights() == p.1
                        },
                        None => info.endpoint.conn_opts.balancer == Balancer::Off,
                    }
                },
                Err(e) => e == ConfigError::InvalidConfig,
            },
    {
        let laddr = match parse_sock_addr(self.endpoint.as_str()) {
            Some(a) => a,
            None => {
                return Err(ConfigError::InvalidConfig);
            },
        };
        let raddr = match parse_remote_addr(self.remote.as_str()) {
            Some(ra) => ra,
            None => {
                return Err(ConfigError::InvalidConfig);
            },
        };
        let mut extras: Vec<RemoteAddr> = Vec::new();
        let n = self.extra_remotes.len();
        let mut i: usize = 0;
        while i < n
            invariant
                0 <= i <= n,
                n == self.extra_remotes@.len(),
                extras@.len() == i,
                forall|j: int|
                    0 <= j < i ==> spec_remote_matches(
                        #[trigger] extras@[j],
                        self.extra_remotes@[j]@,
                    ),
                forall|j: int|
                    0 <= j < i ==> spec_remote_parses((#[trigger] self.extra_remotes@[j])@),
            decreases n - i,
        {
            match parse_remote_addr(self.extra_remotes[i].as_str()) {
                Some(ra) => {
                    extras.push(ra);
                },
                None => {
                    return Err(ConfigError::InvalidConfig);
                },
            }
            i = i + 1;
        }
        let balancer = match &self.balance {
            Some(b) => match Balancer::parse_from_str(b.as_str()) {
                Ok(bal) => bal,
                Err(_) => {
                    return Err(ConfigError::InvalidConfig);
                },
            },
            None => Balancer::Off,
        };
        if self.no_tcp && !self.use_udp {
            return Err(ConfigError::InvalidConfig);
        }
        let conn_opts = ConnectOpts {
            connect_timeout: self.connect_timeout,
            associate_timeout: self.associate_timeout,
            tcp_keepalive: 0,
            tcp_keepalive_probe: 0,
            bind_address: None,
            bind_interface: None,
            proxy_opts: Default::default(),
            balancer,
        };
        Ok(
            EndpointInfo {
                endpoint: Endpoint {
                    laddr,
                    raddr,
                    bind_opts: BindOpts { ipv6_only: false, bind_interface: None },
                    conn_opts,
                    extra_raddrs: extras,
                },
                no_tcp: self.no_tcp,
                use_udp: self.use_udp,
            },
        )
    }
}

} // verus!
