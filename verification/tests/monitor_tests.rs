use realm_core::monitor::{ConnectionMetrics, TrafficStats};

#[test]
fn test_traffic_stats_initialization() {
    let stats = TrafficStats::default();
    assert_eq!(stats.tx_bytes, 0);
    assert_eq!(stats.rx_bytes, 0);
}

#[test]
fn test_connection_metrics_initialization() {
    let metrics = ConnectionMetrics::new(0);
    assert_eq!(metrics.traffic.tx_bytes, 0);
    assert_eq!(metrics.traffic.rx_bytes, 0);
    assert_eq!(metrics.upload_speed_bps, 0);
    assert_eq!(metrics.download_speed_bps, 0);
    assert_eq!(metrics.last_tx_bytes, 0);
    assert_eq!(metrics.last_rx_bytes, 0);
}

#[test]
fn test_update_tx_rx() {
    let mut metrics = ConnectionMetrics::new(0);

    metrics.update_tx(100);
    assert_eq!(metrics.traffic.tx_bytes, 100);
    assert_eq!(metrics.traffic.rx_bytes, 0);

    metrics.update_rx(200);
    assert_eq!(metrics.traffic.tx_bytes, 100);
    assert_eq!(metrics.traffic.rx_bytes, 200);

    metrics.update_tx(50);
    assert_eq!(metrics.traffic.tx_bytes, 150);
    assert_eq!(metrics.traffic.rx_bytes, 200);

    metrics.update_rx(100);
    assert_eq!(metrics.traffic.tx_bytes, 150);
    assert_eq!(metrics.traffic.rx_bytes, 300);
}

#[test]
fn test_calculate_speed_no_time_elapsed() {
    let mut metrics = ConnectionMetrics::new(1_000);
    metrics.update_tx(100);
    // Recompute at the very moment of the last snapshot: no time has
    // elapsed, so the rate is undefined and stays zero.
    metrics.calculate_speed(1_000);

    assert_eq!(metrics.upload_speed_bps, 0);
    assert_eq!(metrics.download_speed_bps, 0);
}

#[test]
fn test_calculate_speed_no_new_bytes() {
    let mut metrics = ConnectionMetrics::new(0);
    // 60 milliseconds pass without any traffic.
    metrics.calculate_speed(60_000);

    assert_eq!(metrics.upload_speed_bps, 0);
    assert_eq!(metrics.download_speed_bps, 0);
    assert_eq!(metrics.last_tx_bytes, 0);
    assert_eq!(metrics.last_rx_bytes, 0);
}

#[test]
fn test_calculate_speed_multiple_calls() {
    let mut metrics = ConnectionMetrics::new(0);
    let tolerance = 0.30; // 30% tolerance

    // --- First interval ---
    metrics.update_tx(1000);
    metrics.update_rx(2000);
    let elapsed_micros1: u64 = 500_000;
    metrics.calculate_speed(elapsed_micros1);

    let elapsed_secs1 = 0.5;
    let expected_upload_bps1 = (1000.0 * 8.0) / elapsed_secs1;
    let expected_download_bps1 = (2000.0 * 8.0) / elapsed_secs1;

    let upload1 = metrics.upload_speed_bps as f64;
    let download1 = metrics.download_speed_bps as f64;
    assert!(
        upload1 >= expected_upload_bps1 * (1.0 - tolerance)
            && upload1 <= expected_upload_bps1 * (1.0 + tolerance),
        "Upload speed {} not within {}% tolerance of {}",
        upload1,
        tolerance * 100.0,
        expected_upload_bps1
    );
    assert!(
        download1 >= expected_download_bps1 * (1.0 - tolerance)
            && download1 <= expected_download_bps1 * (1.0 + tolerance),
        "Download speed {} not within {}% tolerance of {}",
        download1,
        tolerance * 100.0,
        expected_download_bps1
    );
    assert_eq!(metrics.last_tx_bytes, 1000);
    assert_eq!(metrics.last_rx_bytes, 2000);

    // --- Second interval ---
    // A little more time passes before the next byte update.
    let pause_micros: u64 = 10_000;

    metrics.update_tx(500); // Total tx is now 1500
    metrics.update_rx(1000); // Total rx is now 3000

    let elapsed_micros2: u64 = 500_000;
    metrics.calculate_speed(elapsed_micros1 + pause_micros + elapsed_micros2);

    let elapsed_secs2 = 0.5;

    // The bytes for the second calculation are the difference from
    // the last snapshot.
    let expected_upload_bps2 = (500.0 * 8.0) / elapsed_secs2;
    let expected_download_bps2 = (1000.0 * 8.0) / elapsed_secs2;

    let upload2 = metrics.upload_speed_bps as f64;
    let download2 = metrics.download_speed_bps as f64;
    assert!(
        upload2 >= expected_upload_bps2 * (1.0 - tolerance)
            && upload2 <= expected_upload_bps2 * (1.0 + tolerance),
        "Upload speed {} not within {}% tolerance of {}",
        upload2,
        tolerance * 100.0,
        expected_upload_bps2
    );
    assert!(
        download2 >= expected_download_bps2 * (1.0 - tolerance)
            && download2 <= expected_download_bps2 * (1.0 + tolerance),
        "Download speed {} not within {}% tolerance of {}",
        download2,
        tolerance * 100.0,
        expected_download_bps2
    );
    assert_eq!(metrics.last_tx_bytes, 1500);
    assert_eq!(metrics.last_rx_bytes, 3000);
}

#[test]
fn test_counters_saturate_instead_of_overflowing() {
    // The registry-level accounting paths saturate at u64::MAX, so a
    // pathological flow cannot wrap the counters backwards.
    let mut metrics = ConnectionMetrics::new(0);
    metrics.update_tx(u64::MAX);
    assert_eq!(metrics.traffic.tx_bytes, u64::MAX);
}
