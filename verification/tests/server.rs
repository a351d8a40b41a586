use datagram_bench::server::{batch_bytes, HandshakeOutcome, ServerMetrics};
use std::time::Duration;

#[test]
fn batches_add_up() {
    assert_eq!(batch_bytes(&vec![]), Some(0));
    assert_eq!(batch_bytes(&vec![1, 0, 1200, 65_535]), Some(66_736));
    assert_eq!(batch_bytes(&vec![usize::MAX, 0]), Some(u64::MAX));
    assert_eq!(batch_bytes(&vec![usize::MAX, 1]), None);
}

#[test]
fn open_connections_follow_handshakes_and_ends() {
    let mut metrics = ServerMetrics::new();
    assert_eq!(metrics.end_handshake(true), HandshakeOutcome::Read);
    assert_eq!(metrics.end_handshake(true), HandshakeOutcome::Read);
    assert_eq!(metrics.end_handshake(false), HandshakeOutcome::Finish);
    metrics.end_connection();
    assert_eq!(
        metrics,
        ServerMetrics {
            open_connections: 1,
            accepted: 2,
            accept_errors: 1,
            datagrams: 0,
            datagram_bytes: 0,
        }
    );
}

#[test]
fn a_server_report_starts_the_counts_over() {
    let mut metrics = ServerMetrics::new();
    metrics.end_handshake(true);
    metrics.end_handshake(false);
    metrics.count_batch(&vec![1_000; 64]);
    metrics.count_batch(&vec![61_000]);
    metrics.count_batch(&vec![]);
    assert_eq!(
        metrics.report(Duration::from_secs(1)),
        "open_connections=1 accepted/s=1 accept_errors/s=1 datagrams/s=65 \
         datagram_throughput=1.00Mbps"
    );
    assert_eq!(
        metrics.report(Duration::new(1, 1)),
        "open_connections=1 accepted/s=0 accept_errors/s=0 datagrams/s=0 datagram_throughput=0bps"
    );
}

#[test]
fn counts_start_over_behind_their_largest_value() {
    let mut metrics = ServerMetrics {
        open_connections: 0,
        accepted: u64::MAX,
        accept_errors: u64::MAX,
        datagrams: u64::MAX,
        datagram_bytes: u64::MAX - 1,
    };
    metrics.end_handshake(false);
    metrics.count_batch(&vec![1, 2, 0]);
    metrics.end_connection();
    assert_eq!(
        metrics,
        ServerMetrics {
            open_connections: usize::MAX,
            accepted: u64::MAX,
            accept_errors: 0,
            datagrams: 2,
            datagram_bytes: 1,
        }
    );
}

#[test]
fn server_reports_add_up() {
    let mut metrics = ServerMetrics::new();
    let mut datagrams = 0;
    for batch in 1..=5usize {
        metrics.count_batch(&vec![10; batch]);
        if batch % 2 == 0 {
            datagrams += metrics.datagrams;
            metrics.report(Duration::from_secs(1));
        }
    }
    assert_eq!(datagrams, 1 + 2 + 3 + 4);
    assert_eq!(metrics.datagrams, 5);
    assert_eq!(metrics.datagram_bytes, 50);
}
