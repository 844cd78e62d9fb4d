use realm_core::addr::{IpAddr, SockAddr};
use realm_core::balance::Strategy;
use realm_core::endpoint::{EndpointConf, ProxyOpts, RemoteAddr, parse_remote_addr};

#[test]
fn test_parse_remote_addr_literal_and_domain() {
    match parse_remote_addr("127.0.0.1:7002") {
        Some(RemoteAddr::SocketAddr(a)) => {
            assert_eq!(a, SockAddr { ip: IpAddr::V4(0x7F000001), port: 7002 });
        }
        other => panic!("expected socket address, got {:?}", other),
    }
    match parse_remote_addr("example.com:443") {
        Some(RemoteAddr::DomainName(host, port)) => {
            assert_eq!(host, "example.com".to_string());
            assert_eq!(port, 443);
        }
        other => panic!("expected domain name, got {:?}", other),
    }
    assert!(parse_remote_addr("no-port-here").is_none());
    assert!(parse_remote_addr(":443").is_none());
    assert!(parse_remote_addr("example.com:notaport").is_none());
}

#[test]
fn test_endpoint_build_full() {
    let conf = EndpointConf {
        endpoint: "127.0.0.1:7001".to_string(),
        remote: "origin.example:9000".to_string(),
        extra_remotes: vec!["10.0.0.1:9001".to_string(), "backup.example:9002".to_string()],
        balance: Some("iphash: 1, 2".to_string()),
        no_tcp: false,
        use_udp: true,
        connect_timeout: 5,
        associate_timeout: 30,
    };
    let info = conf.build().unwrap();
    assert_eq!(info.endpoint.laddr, SockAddr { ip: IpAddr::V4(0x7F000001), port: 7001 });
    assert_eq!(info.endpoint.extra_raddrs.len(), 2);
    assert_eq!(info.endpoint.conn_opts.connect_timeout, 5);
    assert_eq!(info.endpoint.conn_opts.associate_timeout, 30);
    assert_eq!(info.endpoint.conn_opts.balancer.strategy(), Strategy::IpHash);
    assert!(info.use_udp);
    assert!(!info.no_tcp);
}

#[test]
fn test_endpoint_build_rejects_bad_remote() {
    let conf = EndpointConf {
        endpoint: "127.0.0.1:7001".to_string(),
        remote: "no-port".to_string(),
        extra_remotes: Vec::new(),
        balance: None,
        no_tcp: false,
        use_udp: false,
        connect_timeout: 0,
        associate_timeout: 0,
    };
    assert!(conf.build().is_err());
}

#[test]
fn test_endpoint_build_rejects_bad_balancer() {
    let conf = EndpointConf {
        endpoint: "127.0.0.1:7001".to_string(),
        remote: "127.0.0.1:7002".to_string(),
        extra_remotes: Vec::new(),
        balance: Some("nonsense: 1".to_string()),
        no_tcp: false,
        use_udp: false,
        connect_timeout: 0,
        associate_timeout: 0,
    };
    assert!(conf.build().is_err());
}

#[test]
fn test_proxy_opts_enabled() {
    let mut opts = ProxyOpts::default();
    assert!(!opts.enabled());
    opts.send_proxy = true;
    assert!(opts.enabled());
    opts.send_proxy = false;
    opts.accept_proxy = true;
    assert!(opts.enabled());
}
