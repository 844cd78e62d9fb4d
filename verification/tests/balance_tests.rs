use realm_core::addr::IpAddr;
use realm_core::balance::{BalanceCtx, Balancer, Strategy, Token};

fn run(strategy: Strategy, weights: &[u8]) {
    let mut s = String::with_capacity(128);
    s.push_str(&format!("{}: ", strategy.as_config_str()));

    for weight in weights {
        s.push_str(&format!("{}, ", weight));
    }

    let balancer = Balancer::parse_from_str(&s).unwrap();

    println!("balancer: {:?}", balancer);

    assert_eq!(balancer.strategy(), strategy);
    assert_eq!(balancer.total(), weights.len() as u8);
}

#[test]
fn parse_balancer() {
    run(Strategy::Off, &[]);
    run(Strategy::IpHash, &[]);
    run(Strategy::IpHash, &[1, 2, 3]);
    run(Strategy::IpHash, &[1, 2, 3]);
    run(Strategy::IpHash, &[1, 2, 3]);
    run(Strategy::RoundRobin, &[]);
    run(Strategy::RoundRobin, &[1, 2, 3]);
    run(Strategy::RoundRobin, &[1, 2, 3]);
    run(Strategy::RoundRobin, &[1, 2, 3]);
}

#[test]
fn test_balancer_off_always_primary() {
    let mut b = Balancer::new(Strategy::Off, &[]);
    let ctx = BalanceCtx { src_ip: IpAddr::V4(0x0A000001) };
    assert_eq!(b.next(ctx), Some(Token(0)));
    assert_eq!(b.next(ctx), Some(Token(0)));
    assert_eq!(b.total(), 0);
}

#[test]
fn test_ip_hash_deterministic() {
    // For a fixed weight vector, the selection is a pure function of
    // the source IP: the same address always lands on the same peer.
    let mut b = Balancer::new(Strategy::IpHash, &[1, 2, 3]);
    let ctx = BalanceCtx { src_ip: IpAddr::V4(0xC0A80001) };
    let first = b.next(ctx);
    assert!(first.is_some());
    let Token(k) = first.unwrap();
    assert!((k as usize) < 3);
    for _ in 0..16 {
        assert_eq!(b.next(ctx), first);
    }
    // A v6 source is also stable.
    let ctx6 = BalanceCtx { src_ip: IpAddr::V6(0x2001_0db8_0000_0000_0000_0000_0000_0001) };
    let first6 = b.next(ctx6);
    assert_eq!(b.next(ctx6), first6);
}

#[test]
fn test_ip_hash_no_peers() {
    let mut b = Balancer::new(Strategy::IpHash, &[]);
    let ctx = BalanceCtx { src_ip: IpAddr::V4(1) };
    assert_eq!(b.next(ctx), None);
}

#[test]
fn test_round_robin_weighted_cycle() {
    // A peer of weight w owns w consecutive slots of each cycle.
    let mut b = Balancer::new(Strategy::RoundRobin, &[2, 1]);
    let ctx = BalanceCtx { src_ip: IpAddr::V4(1) };
    let picks: Vec<Option<Token>> = (0..6).map(|_| b.next(ctx)).collect();
    assert_eq!(
        picks,
        vec![
            Some(Token(0)),
            Some(Token(0)),
            Some(Token(1)),
            Some(Token(0)),
            Some(Token(0)),
            Some(Token(1)),
        ]
    );
}

#[test]
fn test_parse_weights_skips_unreadable_segments() {
    let b = Balancer::parse_from_str("iphash: 1, x, 3").unwrap();
    assert_eq!(b.strategy(), Strategy::IpHash);
    assert_eq!(b.total(), 2);
}

#[test]
fn test_parse_rejects_unknown_strategy() {
    assert!(Balancer::parse_from_str("foo: 1, 2").is_err());
}

#[test]
fn test_parse_rejects_missing_colon() {
    assert!(Balancer::parse_from_str("off").is_err());
}

#[test]
fn test_parse_tolerates_whitespace() {
    let b = Balancer::parse_from_str("  roundrobin :  4 ,  5  ").unwrap();
    assert_eq!(b.strategy(), Strategy::RoundRobin);
    assert_eq!(b.total(), 2);
}
