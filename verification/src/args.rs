//! What the two programs are told on the command line, and what they say when they start.

use crate::connection::SendMode;
#[allow(unused_imports)]
use crate::duration::{duration_nanos, duration_secs};
#[allow(unused_imports)]
use crate::text::decimal;
use crate::text::{push_decimal, push_text};
use crate::transport::TransportOptions;
use std::time::Duration;
use vstd::prelude::*;

verus! {

/// The bytes in a datagram unless told otherwise.
pub const DEFAULT_PAYLOAD_BYTES: usize = 1024;

/// The connections attempted at a time unless told otherwise.
pub const DEFAULT_CONNECT_CONCURRENCY: usize = 512;

/// The threads that serve the server's socket unless told otherwise.
pub const DEFAULT_ENDPOINT_RUNTIME_THREADS: usize = 2;

/// The threads that serve the server's connections unless told otherwise.
pub const DEFAULT_CONNECTION_RUNTIME_THREADS: usize = 4;

/// An argument that must not be zero.
#[derive(Clone, Copy, Debug, PartialEq, Eq, Structural)]
pub enum ArgumentError {
    ConnectConcurrency,
    PayloadBytes,
    EndpointRuntimeThreads,
    ConnectionRuntimeThreads,
    AcceptTasks,
    SocketRecvBuffer,
    MaxConcurrentHandshakes,
}

impl ArgumentError {
    /// The error as text.
    pub open spec fn text(self) -> Seq<char> {
        match self {
            ArgumentError::ConnectConcurrency => "connect_concurrency must be greater than zero"@,
            ArgumentError::PayloadBytes => "payload_bytes must be greater than zero"@,
            ArgumentError::EndpointRuntimeThreads =>
                "endpoint_runtime_threads must be greater than zero"@,
            ArgumentError::ConnectionRuntimeThreads =>
                "connection_runtime_threads must be greater than zero"@,
            ArgumentError::AcceptTasks => "accept_tasks must be greater than zero"@,
            ArgumentError::SocketRecvBuffer => "socket_recv_buffer must be greater than zero"@,
            ArgumentError::MaxConcurrentHandshakes =>
                "max_concurrent_handshakes must be greater than zero when set"@,
        }
    }

    /// The error as text.
    pub fn message(&self) -> (text: &'static str)
        ensures
            text@ == self.text(),
    {
        match self {
            ArgumentError::ConnectConcurrency => "connect_concurrency must be greater than zero",
            ArgumentError::PayloadBytes => "payload_bytes must be greater than zero",
            ArgumentError::EndpointRuntimeThreads =>
                "endpoint_runtime_threads must be greater than zero",
            ArgumentError::ConnectionRuntimeThreads =>
                "connection_runtime_threads must be greater than zero",
            ArgumentError::AcceptTasks => "accept_tasks must be greater than zero",
            ArgumentError::SocketRecvBuffer => "socket_recv_buffer must be greater than zero",
            ArgumentError::MaxConcurrentHandshakes =>
                "max_concurrent_handshakes must be greater than zero when set",
        }
    }
}

/// A target number of connections as text.
pub open spec fn target_text(target_connections: usize) -> Seq<char> {
    if target_connections == 0 {
        "unbounded"@
    } else {
        decimal(target_connections as nat)
    }
}

/// Returns a target number of connections as text; zero stands for no limit.
pub fn target_label(target_connections: usize) -> (label: String)
    ensures
        label@ == target_text(target_connections),
{
    let mut label = String::new();
    if target_connections == 0 {
        push_text(&mut label, "unbounded");
    } else {
        push_decimal(&mut label, target_connections as u128);
    }
    assert(label@ =~= target_text(target_connections));
    label
}

/// A send mode as text.
pub open spec fn mode_text(mode: SendMode) -> Seq<char> {
    match mode {
        SendMode::Wait => "Wait"@,
        SendMode::Drop => "Drop"@,
        SendMode::Idle => "Idle"@,
    }
}

/// Returns a send mode as text.
fn mode_label(mode: SendMode) -> (label: &'static str)
    ensures
        label@ == mode_text(mode),
{
    match mode {
        SendMode::Wait => "Wait",
        SendMode::Drop => "Drop",
        SendMode::Idle => "Idle",
    }
}

/// What the client is told.
#[derive(Clone, Copy, Debug)]
pub struct ClientArgs {
    /// The connections to have at a time, zero for as many as possible.
    pub connections: usize,
    /// The tasks that make connections.
    pub connect_concurrency: usize,
    /// The bytes in each datagram.
    pub payload_bytes: usize,
    /// What connections are used for.
    pub send_mode: SendMode,
    /// The bytes of incoming datagrams to buffer.
    pub datagram_receive_buffer: usize,
    /// The bytes of outgoing datagrams to buffer.
    pub datagram_send_buffer: usize,
    /// The seconds without traffic after which a connection ends.
    pub idle_timeout_secs: u64,
    /// Whether to send without congestion control.
    pub no_cc: bool,
}

/// The transport options with a given idle timeout in seconds.
pub open spec fn has_options(
    options: TransportOptions,
    datagram_receive_buffer: usize,
    datagram_send_buffer: usize,
    idle_timeout_secs: u64,
    no_congestion_control: bool,
) -> bool {
    &&& options.datagram_receive_buffer == datagram_receive_buffer
    &&& options.datagram_send_buffer == datagram_send_buffer
    &&& options.idle_timeout matches Some(timeout)
    &&& duration_secs(timeout) == idle_timeout_secs
    &&& duration_nanos(timeout) == 0
    &&& options.no_congestion_control == no_congestion_control
}

impl ClientArgs {
    /// Refuses arguments that must not be zero, the first of them first.
    pub fn validate(&self) -> (r: Result<(), ArgumentError>)
        ensures
            r == if self.connect_concurrency == 0 {
                Err::<(), ArgumentError>(ArgumentError::ConnectConcurrency)
            } else if self.payload_bytes == 0 {
                Err(ArgumentError::PayloadBytes)
            } else {
                Ok(())
            },
    {
        if self.connect_concurrency == 0 {
            return Err(ArgumentError::ConnectConcurrency);
        }
        if self.payload_bytes == 0 {
            return Err(ArgumentError::PayloadBytes);
        }
        Ok(())
    }

    /// The transport options that the arguments ask for.
    pub fn transport_options(&self) -> (options: TransportOptions)
        ensures
            has_options(
                options,
                self.datagram_receive_buffer,
                self.datagram_send_buffer,
                self.idle_timeout_secs,
                self.no_cc,
            ),
    {
        TransportOptions {
            datagram_receive_buffer: self.datagram_receive_buffer,
            datagram_send_buffer: self.datagram_send_buffer,
            idle_timeout: Some(Duration::from_secs(self.idle_timeout_secs)),
            no_congestion_control: self.no_cc,
        }
    }

    /// The payload of every datagram: zeros.
    pub fn payload(&self) -> (payload: Vec<u8>)
        ensures
            payload@ == Seq::new(self.payload_bytes as nat, |i: int| 0u8),
    {
        let payload = vec![0u8; self.payload_bytes];
        assert(payload@ =~= Seq::new(self.payload_bytes as nat, |i: int| 0u8));
        payload
    }

    /// The line that says what the client does, with the address it has and the
    /// address of the server.
    pub open spec fn banner_text(self, local: Seq<char>, server: Seq<char>) -> Seq<char> {
        "local="@ + local + " server="@ + server + " target_connections="@ + target_text(
            self.connections,
        ) + " connect_concurrency="@ + decimal(self.connect_concurrency as nat)
            + " payload_bytes="@ + decimal(self.payload_bytes as nat) + " send_mode="@ + mode_text(
            self.send_mode,
        )
    }

    /// Returns the line that says what the client does.
    pub fn banner(&self, local: &str, server: &str) -> (line: String)
        ensures
            line@ == self.banner_text(local@, server@),
    {
        let mut line = String::new();
        push_text(&mut line, "local=");
        push_text(&mut line, local);
        push_text(&mut line, " server=");
        push_text(&mut line, server);
        push_text(&mut line, " target_connections=");
        push_text(&mut line, target_label(self.connections).as_str());
        push_text(&mut line, " connect_concurrency=");
        push_decimal(&mut line, self.connect_concurrency as u128);
        push_text(&mut line, " payload_bytes=");
        push_decimal(&mut line, self.payload_bytes as u128);
        push_text(&mut line, " send_mode=");
        push_text(&mut line, mode_label(self.send_mode));
        assert(line@ =~= self.banner_text(local@, server@));
        line
    }
}

/// What the server is told.
#[derive(Clone, Copy, Debug)]
pub struct ServerArgs {
    /// The bytes that the socket is to buffer.
    pub socket_recv_buffer: usize,
    /// The bytes of incoming datagrams to buffer.
    pub datagram_receive_buffer: usize,
    /// The bytes of outgoing datagrams to buffer.
    pub datagram_send_buffer: usize,
    /// The seconds without traffic after which a connection ends.
    pub idle_timeout_secs: u64,
    /// Whether to send without congestion control.
    pub disable_congestion_control: bool,
    /// The tasks that take up connections.
    pub accept_tasks: usize,
    /// The handshakes at a time, none for no limit.
    pub max_concurrent_handshakes: Option<usize>,
    /// The threads that serve the socket.
    pub endpoint_runtime_threads: usize,
    /// The threads that serve the connections.
    pub connection_runtime_threads: usize,
}

/// A limit on handshakes as text.
pub open spec fn handshakes_text(limit: Option<usize>) -> Seq<char> {
    match limit {
        None => "unlimited"@,
        Some(n) => decimal(n as nat),
    }
}

/// Whether congestion control is on, as text.
pub open spec fn congestion_text(disabled: bool) -> Seq<char> {
    if disabled {
        "Disabled"@
    } else {
        "Enabled"@
    }
}

impl ServerArgs {
    /// Refuses runtimes without threads, that of the socket first.
    pub fn validate_runtimes(&self) -> (r: Result<(), ArgumentError>)
        ensures
            r == if self.endpoint_runtime_threads == 0 {
                Err::<(), ArgumentError>(ArgumentError::EndpointRuntimeThreads)
            } else if self.connection_runtime_threads == 0 {
                Err(ArgumentError::ConnectionRuntimeThreads)
            } else {
                Ok(())
            },
    {
        if self.endpoint_runtime_threads == 0 {
            return Err(ArgumentError::EndpointRuntimeThreads);
        }
        if self.connection_runtime_threads == 0 {
            return Err(ArgumentError::ConnectionRuntimeThreads);
        }
        Ok(())
    }

    /// Refuses the other arguments that must not be zero, the first of them first.
    pub fn validate(&self) -> (r: Result<(), ArgumentError>)
        ensures
            r == if self.accept_tasks == 0 {
                Err::<(), ArgumentError>(ArgumentError::AcceptTasks)
            } else if self.socket_recv_buffer == 0 {
                Err(ArgumentError::SocketRecvBuffer)
            } else if self.max_concurrent_handshakes == Some(0usize) {
                Err(ArgumentError::MaxConcurrentHandshakes)
            } else {
                Ok(())
            },
    {
        if self.accept_tasks == 0 {
            return Err(ArgumentError::AcceptTasks);
        }
        if self.socket_recv_buffer == 0 {
            return Err(ArgumentError::SocketRecvBuffer);
        }
        match self.max_concurrent_handshakes {
            Some(0) => Err(ArgumentError::MaxConcurrentHandshakes),
            _ => Ok(()),
        }
    }

    /// The transport options that the arguments ask for.
    pub fn transport_options(&self) -> (options: TransportOptions)
        ensures
            has_options(
                options,
                self.datagram_receive_buffer,
                self.datagram_send_buffer,
                self.idle_timeout_secs,
                self.disable_congestion_control,
            ),
    {
        TransportOptions {
            datagram_receive_buffer: self.datagram_receive_buffer,
            datagram_send_buffer: self.datagram_send_buffer,
            idle_timeout: Some(Duration::from_secs(self.idle_timeout_secs)),
            no_congestion_control: self.disable_congestion_control,
        }
    }

    /// The line that says what the server does, with its address and the bytes that
    /// its socket buffers in fact.
    pub open spec fn banner_text(self, listening: Seq<char>, recv_buffer: usize) -> Seq<char> {
        "listening="@ + listening + " accept_tasks="@ + decimal(self.accept_tasks as nat)
            + " max_concurrent_handshakes="@ + handshakes_text(self.max_concurrent_handshakes)
            + " endpoint_runtime_threads="@ + decimal(self.endpoint_runtime_threads as nat)
            + " connection_runtime_threads="@ + decimal(self.connection_runtime_threads as nat)
            + " socket_recv_buffer_requested="@ + decimal(self.socket_recv_buffer as nat)
            + " socket_recv_buffer_effective="@ + decimal(recv_buffer as nat)
            + " congestion_control="@ + congestion_text(self.disable_congestion_control)
    }

    /// Returns the line that says what the server does.
    pub fn banner(&self, listening: &str, recv_buffer: usize) -> (line: String)
        ensures
            line@ == self.banner_text(listening@, recv_buffer),
    {
        let mut line = String::new();
        push_text(&mut line, "listening=");
        push_text(&mut line, listening);
        push_text(&mut line, " accept_tasks=");
        push_decimal(&mut line, self.accept_tasks as u128);
        push_text(&mut line, " max_concurrent_handshakes=");
        match self.max_concurrent_handshakes {
            None => push_text(&mut line, "unlimited"),
            Some(n) => push_decimal(&mut line, n as u128),
        }
        push_text(&mut line, " endpoint_runtime_threads=");
        push_decimal(&mut line, self.endpoint_runtime_threads as u128);
        push_text(&mut line, " connection_runtime_threads=");
        push_decimal(&mut line, self.connection_runtime_threads as u128);
        push_text(&mut line, " socket_recv_buffer_requested=");
        push_decimal(&mut line, self.socket_recv_buffer as u128);
        push_text(&mut line, " socket_recv_buffer_effective=");
        push_decimal(&mut line, recv_buffer as u128);
        push_text(&mut line, " congestion_control=");
        if self.disable_congestion_control {
            push_text(&mut line, "Disabled");
        } else {
            push_text(&mut line, "Enabled");
        }
        assert(line@ =~= self.banner_text(listening@, recv_buffer));
        line
    }
}

/// The name of a runtime's thread: that of the runtime and a number.
pub fn thread_name(prefix: &str, index: usize) -> (name: String)
    ensures
        name@ == prefix@ + "-"@ + decimal(index as nat),
{
    let mut name = prefix.to_owned();
    push_text(&mut name, "-");
    push_decimal(&mut name, index as u128);
    name
}

/// Options that were made of arguments have every one of them.
pub proof fn law_options_are_the_arguments(
    options: TransportOptions,
    receive: usize,
    send: usize,
    secs: u64,
    uncontrolled: bool,
)
    requires
        has_options(options, receive, send, secs, uncontrolled),
    ensures
        options.datagram_receive_buffer == receive,
        options.datagram_send_buffer == send,
        options.idle_timeout matches Some(timeout) && duration_secs(timeout) == secs
            && duration_nanos(timeout) == 0,
        options.no_congestion_control == uncontrolled,
{
}

} // verus!
