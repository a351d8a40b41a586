//! The logic of a benchmark for QUIC datagrams: a client that opens connections and
//! sends datagrams over them, and a server that counts what comes in.
//!
//! The library decides and counts; it opens no sockets and waits for nothing. The
//! two programs around it do what it says and tell it what came of that.

pub mod accuracy;
pub mod args;
pub mod bitrate;
pub mod client;
pub mod connection;
pub mod double;
pub mod duration;
pub mod handshake;
pub mod laws;
pub mod limiter;
pub mod readback;
pub mod server;
pub mod size;
pub mod text;
pub mod tls;
pub mod transport;

pub use args::{
    target_label, ClientArgs, ServerArgs, DEFAULT_CONNECT_CONCURRENCY, DEFAULT_PAYLOAD_BYTES,
};
pub use bitrate::format_bitrate;
pub use limiter::ConnectionLimiter;
pub use size::parse_byte_size;
pub use tls::{insecure_client_config, server_config, SERVER_NAME};
pub use transport::{
    transport_config, NoCongestionControl, TransportOptions, DEFAULT_DATAGRAM_BUFFER_BYTES,
    DEFAULT_IDLE_TIMEOUT_SECS,
};
