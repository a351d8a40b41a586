use datagram_bench::args::{thread_name, ArgumentError};
use datagram_bench::connection::SendMode;
use datagram_bench::{target_label, ClientArgs, ServerArgs};
use std::time::Duration;

fn client_args() -> ClientArgs {
    ClientArgs {
        connections: 0,
        connect_concurrency: 512,
        payload_bytes: 1024,
        send_mode: SendMode::Wait,
        datagram_receive_buffer: 7,
        datagram_send_buffer: 8,
        idle_timeout_secs: 9,
        no_cc: true,
    }
}

fn server_args() -> ServerArgs {
    ServerArgs {
        socket_recv_buffer: 10_000_000,
        datagram_receive_buffer: 7,
        datagram_send_buffer: 8,
        idle_timeout_secs: 9,
        disable_congestion_control: false,
        accept_tasks: 1,
        max_concurrent_handshakes: None,
        endpoint_runtime_threads: 2,
        connection_runtime_threads: 4,
    }
}

#[test]
fn targets_are_labelled() {
    assert_eq!(target_label(0), "unbounded");
    assert_eq!(target_label(1), "1");
    assert_eq!(target_label(usize::MAX), usize::MAX.to_string());
}

#[test]
fn client_arguments_must_not_be_zero() {
    assert_eq!(client_args().validate(), Ok(()));
    let error = ClientArgs { connect_concurrency: 0, payload_bytes: 0, ..client_args() }
        .validate()
        .unwrap_err();
    assert_eq!(error.message(), "connect_concurrency must be greater than zero");
    let error = ClientArgs { payload_bytes: 0, ..client_args() }.validate().unwrap_err();
    assert_eq!(error.message(), "payload_bytes must be greater than zero");
}

#[test]
fn server_arguments_must_not_be_zero() {
    assert_eq!(server_args().validate_runtimes(), Ok(()));
    assert_eq!(server_args().validate(), Ok(()));
    let error = ServerArgs {
        endpoint_runtime_threads: 0,
        connection_runtime_threads: 0,
        ..server_args()
    }
    .validate_runtimes()
    .unwrap_err();
    assert_eq!(error.message(), "endpoint_runtime_threads must be greater than zero");
    let error = ServerArgs { connection_runtime_threads: 0, ..server_args() }
        .validate_runtimes()
        .unwrap_err();
    assert_eq!(error.message(), "connection_runtime_threads must be greater than zero");
    let none = ServerArgs {
        accept_tasks: 0,
        socket_recv_buffer: 0,
        max_concurrent_handshakes: Some(0),
        ..server_args()
    };
    assert_eq!(
        none.validate().unwrap_err().message(),
        "accept_tasks must be greater than zero"
    );
    assert_eq!(
        ServerArgs { accept_tasks: 1, ..none }.validate().unwrap_err().message(),
        "socket_recv_buffer must be greater than zero"
    );
    assert_eq!(
        ServerArgs { accept_tasks: 1, socket_recv_buffer: 1, ..none }
            .validate()
            .unwrap_err()
            .message(),
        "max_concurrent_handshakes must be greater than zero when set"
    );
    assert_eq!(
        ServerArgs { max_concurrent_handshakes: Some(1), ..server_args() }.validate(),
        Ok::<(), ArgumentError>(())
    );
}

#[test]
fn arguments_become_transport_options() {
    let options = client_args().transport_options();
    assert_eq!(options.datagram_receive_buffer, 7);
    assert_eq!(options.datagram_send_buffer, 8);
    assert_eq!(options.idle_timeout, Some(Duration::from_secs(9)));
    assert!(options.no_congestion_control);
    let options = server_args().transport_options();
    assert_eq!(options.datagram_receive_buffer, 7);
    assert_eq!(options.datagram_send_buffer, 8);
    assert_eq!(options.idle_timeout, Some(Duration::from_secs(9)));
    assert!(!options.no_congestion_control);
}

#[test]
fn the_payload_is_zeros() {
    assert_eq!(client_args().payload(), vec![0u8; 1024]);
}

#[test]
fn programs_say_what_they_do() {
    assert_eq!(
        client_args().banner("0.0.0.0:5", "127.0.0.1:4433"),
        "local=0.0.0.0:5 server=127.0.0.1:4433 target_connections=unbounded \
         connect_concurrency=512 payload_bytes=1024 send_mode=Wait"
    );
    assert_eq!(
        ClientArgs { connections: 12, send_mode: SendMode::Drop, ..client_args() }.banner("a", "b"),
        "local=a server=b target_connections=12 connect_concurrency=512 payload_bytes=1024 \
         send_mode=Drop"
    );
    assert_eq!(
        server_args().banner("0.0.0.0:4433", 212_992),
        "listening=0.0.0.0:4433 accept_tasks=1 max_concurrent_handshakes=unlimited \
         endpoint_runtime_threads=2 connection_runtime_threads=4 \
         socket_recv_buffer_requested=10000000 socket_recv_buffer_effective=212992 \
         congestion_control=Enabled"
    );
    assert_eq!(
        ServerArgs {
            max_concurrent_handshakes: Some(16),
            disable_congestion_control: true,
            ..server_args()
        }
        .banner("x", 1),
        "listening=x accept_tasks=1 max_concurrent_handshakes=16 endpoint_runtime_threads=2 \
         connection_runtime_threads=4 socket_recv_buffer_requested=10000000 \
         socket_recv_buffer_effective=1 congestion_control=Disabled"
    );
}

#[test]
fn threads_are_numbered() {
    assert_eq!(thread_name("dgram-conn", 0), "dgram-conn-0");
    assert_eq!(thread_name("dgram-endpt", 42), "dgram-endpt-42");
}
