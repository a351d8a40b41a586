//! The client: what its connection attempts and its connections do next, what
//! they count, and what it reports.
//!
//! All tasks of the client share one [`Client`]. A task asks it, or its own
//! [`crate::connection::ConnectionTask`], what to do, does that, and says what came of it.

use crate::bitrate::format_bitrate;
#[allow(unused_imports)]
use crate::bitrate::bitrate_text;
#[allow(unused_imports)]
use crate::duration::{duration_nanos, duration_secs};
use crate::limiter::ConnectionLimiter;
#[allow(unused_imports)]
use crate::limiter::LimiterState;
#[allow(unused_imports)]
use crate::text::decimal;
use crate::text::{push_decimal, push_text};
use std::time::Duration;
use vstd::prelude::*;

verus! {

/// The milliseconds that a connecting task sleeps while no slot is free.
pub const ATTEMPT_PAUSE_MILLIS: u64 = 1;

/// What the client counts. All but the open connections are counted since the
/// last report. A count starts over behind its largest value.
#[derive(Clone, Copy, Debug, PartialEq, Eq, Structural)]
pub struct ClientMetrics {
    pub open_connections: usize,
    pub connect_attempts: u64,
    pub connected: u64,
    pub connect_errors: u64,
    pub closed: u64,
    pub datagrams_sent: u64,
    pub datagram_bytes_sent: u64,
    pub send_errors: u64,
}

impl ClientMetrics {
    /// The counts with all but the open connections back at zero.
    pub open spec fn reset(self) -> ClientMetrics {
        ClientMetrics {
            open_connections: self.open_connections,
            connect_attempts: 0,
            connected: 0,
            connect_errors: 0,
            closed: 0,
            datagrams_sent: 0,
            datagram_bytes_sent: 0,
            send_errors: 0,
        }
    }
}

/// The state that all tasks of the client share.
pub struct ClientState {
    pub limiter: LimiterState,
    pub metrics: ClientMetrics,
    pub shutdown: bool,
}

impl ClientState {
    /// The state at the start.
    pub open spec fn initial(target_connections: usize) -> ClientState {
        ClientState {
            limiter: LimiterState { target: target_connections, active: 0 },
            metrics: ClientMetrics {
                open_connections: 0,
                connect_attempts: 0,
                connected: 0,
                connect_errors: 0,
                closed: 0,
                datagrams_sent: 0,
                datagram_bytes_sent: 0,
                send_errors: 0,
            },
            shutdown: false,
        }
    }

    /// A connection attempt took a slot.
    pub open spec fn attempted(self) -> ClientState {
        ClientState {
            limiter: self.limiter.reserved(),
            metrics: ClientMetrics {
                connect_attempts: self.metrics.connect_attempts.wrapping_add(1),
                ..self.metrics
            },
            ..self
        }
    }

    /// A connection attempt led to a connection.
    pub open spec fn opened(self) -> ClientState {
        ClientState {
            metrics: ClientMetrics {
                open_connections: self.metrics.open_connections.wrapping_add(1),
                connected: self.metrics.connected.wrapping_add(1),
                ..self.metrics
            },
            ..self
        }
    }

    /// A connection attempt failed.
    pub open spec fn failed(self) -> ClientState {
        ClientState {
            limiter: self.limiter.released(),
            metrics: ClientMetrics {
                connect_errors: self.metrics.connect_errors.wrapping_add(1),
                ..self.metrics
            },
            ..self
        }
    }

    /// A datagram was sent.
    pub open spec fn sent(self, payload_len: usize) -> ClientState {
        ClientState {
            metrics: ClientMetrics {
                datagrams_sent: self.metrics.datagrams_sent.wrapping_add(1),
                datagram_bytes_sent: self.metrics.datagram_bytes_sent.wrapping_add(
                    payload_len as u64,
                ),
                ..self.metrics
            },
            ..self
        }
    }

    /// A datagram could not be sent.
    pub open spec fn send_failed(self) -> ClientState {
        ClientState {
            metrics: ClientMetrics {
                send_errors: self.metrics.send_errors.wrapping_add(1),
                ..self.metrics
            },
            ..self
        }
    }

    /// A connection came to its end and gave its slot back.
    pub open spec fn closed(self) -> ClientState {
        ClientState {
            limiter: self.limiter.released(),
            metrics: ClientMetrics {
                open_connections: self.metrics.open_connections.wrapping_sub(1),
                closed: self.metrics.closed.wrapping_add(1),
                ..self.metrics
            },
            ..self
        }
    }
}

/// What a connecting task does next.
#[derive(Clone, Copy, Debug, PartialEq, Eq, Structural)]
pub enum AttemptAction {
    /// End.
    Stop,
    /// Sleep for [`ATTEMPT_PAUSE_MILLIS`] and ask again.
    Pause,
    /// Connect to the server and say whether that worked.
    Connect,
}

/// What a connecting task does once its attempt has come to an end.
#[derive(Clone, Copy, Debug, PartialEq, Eq, Structural)]
pub enum AttemptOutcome {
    /// Start a task for the new connection and ask again.
    StartConnection,
    /// Let other tasks run and ask again.
    Yield,
}

/// What a connecting task does next.
pub open spec fn attempt_action(client: ClientState) -> AttemptAction {
    if client.shutdown {
        AttemptAction::Stop
    } else if client.limiter.has_room() {
        AttemptAction::Connect
    } else {
        AttemptAction::Pause
    }
}

/// The shared state once a connecting task was told what to do.
pub open spec fn after_attempt_action(client: ClientState) -> ClientState {
    if attempt_action(client) == AttemptAction::Connect {
        client.attempted()
    } else {
        client
    }
}

/// The shared state once an attempt has come to an end.
pub open spec fn after_attempt(client: ClientState, connected: bool) -> ClientState {
    if connected {
        client.opened()
    } else {
        client.failed()
    }
}

/// The client's counts and its limit, for all its tasks.
pub struct Client {
    limiter: ConnectionLimiter,
    metrics: ClientMetrics,
    shutdown: bool,
}

impl View for Client {
    type V = ClientState;

    closed spec fn view(&self) -> ClientState {
        ClientState { limiter: self.limiter@, metrics: self.metrics, shutdown: self.shutdown }
    }
}

impl Client {
    /// A client without connections that aims at the given number of them, or at
    /// as many as it can get where that number is zero.
    pub fn new(target_connections: usize) -> (client: Client)
        ensures
            client@ == ClientState::initial(target_connections),
    {
        Client {
            limiter: ConnectionLimiter::new(target_connections),
            metrics: ClientMetrics {
                open_connections: 0,
                connect_attempts: 0,
                connected: 0,
                connect_errors: 0,
                closed: 0,
                datagrams_sent: 0,
                datagram_bytes_sent: 0,
                send_errors: 0,
            },
            shutdown: false,
        }
    }

    /// Tells all tasks to come to an end.
    pub fn shut_down(&mut self)
        ensures
            final(self)@ == (ClientState { shutdown: true, ..old(self)@ }),
    {
        self.shutdown = true;
    }

    /// Whether all tasks are to come to an end.
    pub fn is_shut_down(&self) -> (shutdown: bool)
        ensures
            shutdown == self@.shutdown,
    {
        self.shutdown
    }

    /// The counts.
    pub fn metrics(&self) -> (metrics: ClientMetrics)
        ensures
            metrics == self@.metrics,
    {
        self.metrics
    }

    /// Says what a connecting task does next, and takes a slot for an attempt.
    pub fn next_attempt(&mut self) -> (action: AttemptAction)
        ensures
            action == attempt_action(old(self)@),
            final(self)@ == after_attempt_action(old(self)@),
    {
        if self.shutdown {
            return AttemptAction::Stop;
        }
        if !self.limiter.try_reserve() {
            return AttemptAction::Pause;
        }
        self.metrics.connect_attempts = self.metrics.connect_attempts.wrapping_add(1);
        AttemptAction::Connect
    }

    /// Counts an attempt that has come to an end; the slot of a failed one is free again.
    pub fn end_attempt(&mut self, connected: bool) -> (outcome: AttemptOutcome)
        ensures
            final(self)@ == after_attempt(old(self)@, connected),
            outcome == if connected {
                AttemptOutcome::StartConnection
            } else {
                AttemptOutcome::Yield
            },
    {
        if connected {
            self.metrics.open_connections = self.metrics.open_connections.wrapping_add(1);
            self.metrics.connected = self.metrics.connected.wrapping_add(1);
            AttemptOutcome::StartConnection
        } else {
            self.limiter.release();
            self.metrics.connect_errors = self.metrics.connect_errors.wrapping_add(1);
            AttemptOutcome::Yield
        }
    }

    /// Counts a datagram that was sent.
    pub(crate) fn count_sent(&mut self, payload_len: usize)
        ensures
            final(self)@ == old(self)@.sent(payload_len),
    {
        self.metrics.datagrams_sent = self.metrics.datagrams_sent.wrapping_add(1);
        self.metrics.datagram_bytes_sent =
        self.metrics.datagram_bytes_sent.wrapping_add(payload_len as u64);
    }

    /// Counts a datagram that could not be sent.
    pub(crate) fn count_send_error(&mut self)
        ensures
            final(self)@ == old(self)@.send_failed(),
    {
        self.metrics.send_errors = self.metrics.send_errors.wrapping_add(1);
    }

    /// Counts a connection that came to its end, and frees its slot.
    pub(crate) fn count_closed(&mut self)
        ensures
            final(self)@ == old(self)@.closed(),
    {
        self.metrics.open_connections = self.metrics.open_connections.wrapping_sub(1);
        self.metrics.closed = self.metrics.closed.wrapping_add(1);
        self.limiter.release();
    }

    /// Reports the counts of the time since the last report and starts them over.
    pub fn report(&mut self, elapsed: Duration) -> (line: String)
        ensures
            line@ == client_report(
                old(self)@.metrics,
                duration_secs(elapsed) as nat,
                duration_nanos(elapsed) as nat,
            ),
            final(self)@ == (ClientState { metrics: old(self)@.metrics.reset(), ..old(self)@ }),
    {
        let m = self.metrics;
        self.metrics = ClientMetrics {
            open_connections: m.open_connections,
            connect_attempts: 0,
            connected: 0,
            connect_errors: 0,
            closed: 0,
            datagrams_sent: 0,
            datagram_bytes_sent: 0,
            send_errors: 0,
        };
        let throughput = format_bitrate(m.datagram_bytes_sent, elapsed);
        let mut line = String::new();
        push_text(&mut line, "open_connections=");
        push_decimal(&mut line, m.open_connections as u128);
        push_text(&mut line, " connect_attempts/s=");
        push_decimal(&mut line, m.connect_attempts as u128);
        push_text(&mut line, " connected/s=");
        push_decimal(&mut line, m.connected as u128);
        push_text(&mut line, " connect_errors/s=");
        push_decimal(&mut line, m.connect_errors as u128);
        push_text(&mut line, " closed/s=");
        push_decimal(&mut line, m.closed as u128);
        push_text(&mut line, " datagrams_sent/s=");
        push_decimal(&mut line, m.datagrams_sent as u128);
        push_text(&mut line, " send_throughput=");
        push_text(&mut line, throughput.as_str());
        push_text(&mut line, " send_errors/s=");
        push_decimal(&mut line, m.send_errors as u128);
        assert(line@ =~= client_report(m, duration_secs(elapsed) as nat, duration_nanos(elapsed) as nat));
        line
    }
}

/// The line that reports the counts of a given time.
pub open spec fn client_report(m: ClientMetrics, secs: nat, nanos: nat) -> Seq<char> {
    "open_connections="@ + decimal(m.open_connections as nat) + " connect_attempts/s="@ + decimal(
        m.connect_attempts as nat,
    ) + " connected/s="@ + decimal(m.connected as nat) + " connect_errors/s="@ + decimal(
        m.connect_errors as nat,
    ) + " closed/s="@ + decimal(m.closed as nat) + " datagrams_sent/s="@ + decimal(
        m.datagrams_sent as nat,
    ) + " send_throughput="@ + bitrate_text(m.datagram_bytes_sent as nat, secs, nanos)
        + " send_errors/s="@ + decimal(m.send_errors as nat)
}

} // verus!
