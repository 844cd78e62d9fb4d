use realm_core::addr::{IpAddr, SockAddr, parse_sock_addr};
use realm_core::api::{
    AddRuleError, Authenticate, RequestLogger, UdpStatsAnswer, add_rule, delete_rule,
    get_tcp_connection_stats, get_udp_association_stats, list_tcp_connections,
    list_udp_associations, resolve_api_host, resolve_api_port, resolve_api_token,
    www_authenticate_value,
};
use realm_core::endpoint::EndpointConf;
use realm_core::registry::{
    RuleRegistry, TcpMetricsTable, UdpMetricsTable, calculate_all_tcp_speeds,
};
use realm_core::tcp::{account_connection, close_connection, open_connection};
use realm_core::udp::{SockMap, on_forward_group, on_return_batch};

fn conf(laddr: &str, raddr: &str) -> EndpointConf {
    EndpointConf {
        endpoint: laddr.to_string(),
        remote: raddr.to_string(),
        extra_remotes: Vec::new(),
        balance: None,
        no_tcp: false,
        use_udp: false,
        connect_timeout: 0,
        associate_timeout: 0,
    }
}

#[test]
fn test_auth_rejects_without_token_header() {
    // With API_AUTH_TOKEN=secret, a request without Authorization is
    // turned away; the exact bearer header is let through.
    let auth = Authenticate::new(Some("secret".to_string()));
    assert!(!auth.allows(None));
    assert!(auth.allows(Some(&"Bearer secret".to_string())));
    assert!(!auth.allows(Some(&"Bearer wrong".to_string())));
    assert!(!auth.allows(Some(&"bearer secret".to_string())));
    assert!(!auth.allows(Some(&"secret".to_string())));
    assert_eq!(www_authenticate_value(), "Bearer realm=\"Realm API\"");
}

#[test]
fn test_auth_open_without_configured_token() {
    let auth = Authenticate::new(None);
    assert!(auth.allows(None));
    assert!(auth.allows(Some(&"Bearer anything".to_string())));
}

#[test]
fn test_request_logger_hides_authorization() {
    assert!(!RequestLogger::header_loggable("authorization"));
    assert!(RequestLogger::header_loggable("content-type"));
}

#[test]
fn test_post_then_delete_rule() {
    let mut registry = RuleRegistry::new();
    let c = conf("127.0.0.1:7001", "127.0.0.1:7002");

    let created = add_rule(&mut registry, &c).unwrap();
    assert_eq!(
        created.endpoint.laddr,
        SockAddr { ip: IpAddr::V4(0x7F000001), port: 7001 }
    );
    assert!(registry.contains(&"127.0.0.1:7001".to_string()));

    // DELETE answers 200 and frees the id...
    assert!(delete_rule(&mut registry, &"127.0.0.1:7001".to_string()));
    assert!(!registry.contains(&"127.0.0.1:7001".to_string()));
    // ...a second DELETE answers 404...
    assert!(!delete_rule(&mut registry, &"127.0.0.1:7001".to_string()));
    // ...and a repost of the same id is created again.
    assert!(add_rule(&mut registry, &c).is_ok());
}

#[test]
fn test_duplicate_post_conflicts() {
    let mut registry = RuleRegistry::new();
    let c = conf("127.0.0.1:7001", "127.0.0.1:7002");
    assert!(add_rule(&mut registry, &c).is_ok());
    // The same body again: 409, and no second worker.
    assert_eq!(add_rule(&mut registry, &c).unwrap_err(), AddRuleError::Duplicate);
    assert_eq!(registry.len(), 1);
}

#[test]
fn test_add_rule_rejects_bad_endpoint() {
    let mut registry = RuleRegistry::new();
    assert_eq!(
        add_rule(&mut registry, &conf("not-an-address", "127.0.0.1:7002")).unwrap_err(),
        AddRuleError::InvalidEndpoint
    );
    let mut disabled = conf("127.0.0.1:7001", "127.0.0.1:7002");
    disabled.no_tcp = true;
    disabled.use_udp = false;
    assert_eq!(
        add_rule(&mut registry, &disabled).unwrap_err(),
        AddRuleError::InvalidEndpoint
    );
    assert_eq!(registry.len(), 0);
}

#[test]
fn test_tcp_connection_accounting_round_trip() {
    // One relayed connection that echoed 5 bytes each way: the final
    // counters are exactly (5, 5), whatever the packetization was.
    let mut table = TcpMetricsTable::new();
    let id = open_connection(&mut table, 0).unwrap();
    assert!(account_connection(&mut table, &id, 5, 5));

    let stats = get_tcp_connection_stats(&table, &id, 2_000_000).unwrap();
    assert_eq!(stats.tx_bytes, 5);
    assert_eq!(stats.rx_bytes, 5);
    assert!(stats.uptime_seconds >= 0 && stats.uptime_seconds == 2);

    assert!(close_connection(&mut table, &id));
    assert!(get_tcp_connection_stats(&table, &id, 2_000_000).is_none());
}

#[test]
fn test_tcp_stats_endpoints() {
    let mut table = TcpMetricsTable::new();

    let conn_id1 = open_connection(&mut table, 0).unwrap();
    assert!(account_connection(&mut table, &conn_id1, 1000, 2000));

    let conn_id2 = open_connection(&mut table, 0).unwrap();
    assert!(account_connection(&mut table, &conn_id2, 3000, 0));

    let listing = list_tcp_connections(&table, 1_000_000);
    assert_eq!(listing.len(), 2, "Should list two TCP connections");

    let conn1_data = listing.iter().find(|x| x.0 == conn_id1).expect("conn_id1 not found");
    assert_eq!(conn1_data.1.tx_bytes, 1000);
    assert_eq!(conn1_data.1.rx_bytes, 2000);
    assert_eq!(conn1_data.1.uptime_seconds, 1);

    let one = get_tcp_connection_stats(&table, &conn_id1, 1_000_000).unwrap();
    assert_eq!(one.tx_bytes, 1000);

    assert!(get_tcp_connection_stats(&table, &"unknown-id".to_string(), 0).is_none());
}

#[test]
fn test_udp_stats_endpoints() {
    let mut sockmap = SockMap::new();
    let mut table = UdpMetricsTable::new();
    let addr1 = parse_sock_addr("1.2.3.4:1234").unwrap();

    on_forward_group(&mut sockmap, &mut table, addr1, 500, 0);
    assert!(on_return_batch(&mut table, addr1, 1500));

    let listing = list_udp_associations(&table, 0);
    assert_eq!(listing.len(), 1);
    assert_eq!(listing[0].0, addr1);
    assert_eq!(listing[0].1.tx_bytes, 500);

    match get_udp_association_stats(&table, "1.2.3.4:1234", 0) {
        UdpStatsAnswer::Found(stats) => {
            assert_eq!(stats.tx_bytes, 500);
            assert_eq!(stats.rx_bytes, 1500);
        }
        other => panic!("expected stats, got {:?}", other),
    }

    // A malformed client address answers 400.
    assert_eq!(
        get_udp_association_stats(&table, "invalid-addr", 0),
        UdpStatsAnswer::BadRequest
    );
}

#[test]
fn test_rate_task_pass() {
    // 1000 bytes up in one second: 8000 bits per second.
    let mut table = TcpMetricsTable::new();
    let id = open_connection(&mut table, 0).unwrap();
    assert!(account_connection(&mut table, &id, 1000, 0));
    calculate_all_tcp_speeds(&mut table, 1_000_000);
    let stats = get_tcp_connection_stats(&table, &id, 1_000_000).unwrap();
    assert_eq!(stats.upload_speed_bps, 8000);
    assert_eq!(stats.download_speed_bps, 0);
}

#[test]
fn test_parse_sock_addr_strictness() {
    assert_eq!(
        parse_sock_addr("1.2.3.4:1234"),
        Some(SockAddr { ip: IpAddr::V4(0x01020304), port: 1234 })
    );
    assert_eq!(
        parse_sock_addr("127.0.0.1:8080"),
        Some(SockAddr { ip: IpAddr::V4(0x7F000001), port: 8080 })
    );
    assert_eq!(parse_sock_addr("invalid-addr"), None);
    assert_eq!(parse_sock_addr("1.2.3.4"), None);
    assert_eq!(parse_sock_addr("256.2.3.4:80"), None);
    assert_eq!(parse_sock_addr("1.2.3.4:65536"), None);
    assert_eq!(parse_sock_addr("01.2.3.4:80"), None);
    assert_eq!(parse_sock_addr("1.2.3.4:080"), None);
    assert_eq!(parse_sock_addr(""), None);

    // Bracketed IPv6 forms, with and without a double-colon gap.
    assert_eq!(
        parse_sock_addr("[::1]:8080"),
        Some(SockAddr { ip: IpAddr::V6(1), port: 8080 })
    );
    assert_eq!(
        parse_sock_addr("[2001:db8::7]:443"),
        Some(SockAddr {
            ip: IpAddr::V6(0x2001_0db8_0000_0000_0000_0000_0000_0007),
            port: 443
        })
    );
    assert_eq!(
        parse_sock_addr("[1:2:3:4:5:6:7:8]:1"),
        Some(SockAddr {
            ip: IpAddr::V6(0x0001_0002_0003_0004_0005_0006_0007_0008),
            port: 1
        })
    );
    assert_eq!(parse_sock_addr("[::1]"), None);
    assert_eq!(parse_sock_addr("[1:2:3]:80"), None);
    assert_eq!(parse_sock_addr("[1::2::3]:80"), None);
    assert_eq!(parse_sock_addr("[12345::1]:80"), None);
}

#[test]
fn test_api_environment_defaults() {
    assert_eq!(resolve_api_port(None), 8080);
    assert_eq!(resolve_api_port(Some(&"9090".to_string())), 9090);
    assert_eq!(resolve_api_port(Some(&"not-a-port".to_string())), 8080);
    assert_eq!(resolve_api_port(Some(&"70000".to_string())), 8080);

    assert_eq!(resolve_api_host(None), "127.0.0.1".to_string());
    assert_eq!(resolve_api_host(Some("0.0.0.0".to_string())), "0.0.0.0".to_string());

    assert!(resolve_api_token(None).is_none());
    assert!(resolve_api_token(Some(String::new())).is_none());
    assert_eq!(resolve_api_token(Some("t".to_string())), Some("t".to_string()));
}
