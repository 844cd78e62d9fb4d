use realm_core::addr::{IpAddr, SockAddr};
use realm_core::udp::{
    Packet, Registry, SockMap, end_association, on_forward_group, on_return_batch,
};
use realm_core::registry::UdpMetricsTable;
use realm_core::api::{UdpStatsAnswer, get_udp_association_stats};

fn addr(last_octet: u32, port: u16) -> SockAddr {
    SockAddr { ip: IpAddr::V4(0x0A000000 | last_octet), port }
}

fn packet(a: SockAddr, payload: &[u8]) -> Packet {
    Packet { addr: a, payload: payload.to_vec() }
}

#[test]
fn test_group_by_addr_keeps_arrival_order() {
    let a = addr(1, 1000);
    let b = addr(2, 2000);
    let c = addr(3, 3000);
    let batch = vec![
        packet(a, &[1]),
        packet(b, &[2]),
        packet(a, &[3]),
        packet(c, &[4]),
        packet(b, &[5]),
    ];

    let mut registry = Registry::new();
    registry.load(batch);
    registry.group_by_addr();

    assert_eq!(registry.count(), 5);
    assert_eq!(registry.group_count(), 3);

    // Sources in first-arrival order, each one contiguous, and each
    // source's packets in their arrival order.
    let r0 = registry.group_range(0);
    let r1 = registry.group_range(1);
    let r2 = registry.group_range(2);
    assert_eq!((r0.start, r0.end), (0, 2));
    assert_eq!((r1.start, r1.end), (2, 4));
    assert_eq!((r2.start, r2.end), (4, 5));

    assert_eq!(registry.packet_at(0).addr, a);
    assert_eq!(registry.packet_at(0).payload, vec![1]);
    assert_eq!(registry.packet_at(1).addr, a);
    assert_eq!(registry.packet_at(1).payload, vec![3]);
    assert_eq!(registry.packet_at(2).addr, b);
    assert_eq!(registry.packet_at(2).payload, vec![2]);
    assert_eq!(registry.packet_at(3).addr, b);
    assert_eq!(registry.packet_at(3).payload, vec![5]);
    assert_eq!(registry.packet_at(4).addr, c);
    assert_eq!(registry.packet_at(4).payload, vec![4]);
}

#[test]
fn test_group_by_addr_empty_batch() {
    let mut registry = Registry::new();
    registry.load(Vec::new());
    registry.group_by_addr();
    assert_eq!(registry.count(), 0);
    assert_eq!(registry.group_count(), 0);
}

#[test]
fn test_group_total_bytes_sums_payloads() {
    let a = addr(1, 1000);
    let b = addr(2, 2000);
    let batch = vec![packet(a, &[1, 2, 3]), packet(b, &[9]), packet(a, &[4, 5])];
    let mut registry = Registry::new();
    registry.load(batch);
    registry.group_by_addr();
    assert_eq!(registry.group_count(), 2);
    assert_eq!(registry.group_total_bytes(0), 5);
    assert_eq!(registry.group_total_bytes(1), 1);
}

#[test]
fn test_udp_round_trip_accounting() {
    // A client sends a 1-byte and then a 2-byte datagram; both are
    // echoed. The association's final counters are exactly (3, 3).
    let client = addr(7, 4444);
    let mut sockmap = SockMap::new();
    let mut metrics = UdpMetricsTable::new();

    let created = on_forward_group(&mut sockmap, &mut metrics, client, 1, 0);
    assert!(created);
    let created_again = on_forward_group(&mut sockmap, &mut metrics, client, 2, 10);
    assert!(!created_again);

    assert!(on_return_batch(&mut metrics, client, 1));
    assert!(on_return_batch(&mut metrics, client, 2));

    let m = metrics.get(client).unwrap();
    assert_eq!(m.traffic.tx_bytes, 3);
    assert_eq!(m.traffic.rx_bytes, 3);
}

#[test]
fn test_udp_idle_eviction() {
    // After the idle timeout fires, the association and its metrics
    // entry are gone and the stats endpoint answers 404.
    let client = addr(9, 5555);
    let mut sockmap = SockMap::new();
    let mut metrics = UdpMetricsTable::new();

    on_forward_group(&mut sockmap, &mut metrics, client, 1, 0);
    assert!(sockmap.contains(client));
    assert!(metrics.get(client).is_some());

    end_association(&mut sockmap, &mut metrics, client);

    assert!(!sockmap.contains(client));
    assert!(metrics.get(client).is_none());
    assert_eq!(
        get_udp_association_stats(&metrics, "10.0.0.9:5555", 0),
        UdpStatsAnswer::NotFound
    );
    // A later return batch for the evicted client accounts nothing.
    assert!(!on_return_batch(&mut metrics, client, 5));
}

#[test]
fn test_associations_are_isolated() {
    let c1 = addr(1, 1111);
    let c2 = addr(2, 2222);
    let mut sockmap = SockMap::new();
    let mut metrics = UdpMetricsTable::new();

    on_forward_group(&mut sockmap, &mut metrics, c1, 100, 0);
    on_forward_group(&mut sockmap, &mut metrics, c2, 200, 0);
    end_association(&mut sockmap, &mut metrics, c1);

    assert!(!sockmap.contains(c1));
    assert!(sockmap.contains(c2));
    assert_eq!(metrics.get(c2).unwrap().traffic.tx_bytes, 200);
}
