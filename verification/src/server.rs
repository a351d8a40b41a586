//! The server: what it counts and what it reports.

use crate::bitrate::format_bitrate;
#[allow(unused_imports)]
use crate::bitrate::bitrate_text;
#[allow(unused_imports)]
use crate::duration::{duration_nanos, duration_secs};
#[allow(unused_imports)]
use crate::text::decimal;
use crate::text::{push_decimal, push_text};
use std::time::Duration;
use vstd::prelude::*;

verus! {

/// The datagrams that are read at a time.
pub const DATAGRAM_READ_BATCH_SIZE: usize = 64;

/// What the task of a connection does once its handshake has come to an end.
#[derive(Clone, Copy, Debug, PartialEq, Eq, Structural)]
pub enum HandshakeOutcome {
    /// Give the permit back and read datagrams until the connection ends.
    Read,
    /// End.
    Finish,
}

/// What the server counts. All but the open connections are counted since the
/// last report. A count starts over behind its largest value.
#[derive(Clone, Copy, Debug, PartialEq, Eq, Structural)]
pub struct ServerMetrics {
    pub open_connections: usize,
    pub accepted: u64,
    pub accept_errors: u64,
    pub datagrams: u64,
    pub datagram_bytes: u64,
}

/// The bytes in a batch of datagrams of the given lengths.
pub open spec fn total_bytes(lengths: Seq<usize>) -> nat
    decreases lengths.len(),
{
    if lengths.len() == 0 {
        0
    } else {
        total_bytes(lengths.drop_last()) + lengths.last() as nat
    }
}

/// Leaving out lengths never makes a larger total.
proof fn lemma_prefix_bytes(lengths: Seq<usize>, n: int)
    requires
        0 <= n <= lengths.len(),
    ensures
        total_bytes(lengths.take(n)) <= total_bytes(lengths),
    decreases lengths.len(),
{
    if n == lengths.len() {
        assert(lengths.take(n) =~= lengths);
    } else {
        assert(lengths.drop_last().take(n) =~= lengths.take(n));
        lemma_prefix_bytes(lengths.drop_last(), n);
    }
}

/// The bytes in a batch of datagrams of the given lengths, if the number fits.
pub fn batch_bytes(lengths: &Vec<usize>) -> (bytes: Option<u64>)
    ensures
        match bytes {
            Some(n) => n == total_bytes(lengths@),
            None => total_bytes(lengths@) > u64::MAX,
        },
{
    let mut bytes: u64 = 0;
    let mut i: usize = 0;
    while i < lengths.len()
        invariant
            i <= lengths.len(),
            bytes == total_bytes(lengths@.take(i as int)),
        decreases lengths.len() - i,
    {
        proof {
            assert(lengths@.take(i + 1).drop_last() =~= lengths@.take(i as int));
            lemma_prefix_bytes(lengths@, i + 1);
        }
        match bytes.checked_add(lengths[i] as u64) {
            Some(n) => {
                bytes = n;
            },
            None => {
                return None;
            },
        }
        i = i + 1;
    }
    assert(lengths@.take(lengths.len() as int) =~= lengths@);
    Some(bytes)
}

impl ServerMetrics {
    /// A handshake led to a connection.
    pub open spec fn opened(self) -> ServerMetrics {
        ServerMetrics {
            open_connections: self.open_connections.wrapping_add(1),
            accepted: self.accepted.wrapping_add(1),
            ..self
        }
    }

    /// A handshake failed.
    pub open spec fn failed(self) -> ServerMetrics {
        ServerMetrics { accept_errors: self.accept_errors.wrapping_add(1), ..self }
    }

    /// A connection came to its end.
    pub open spec fn closed(self) -> ServerMetrics {
        ServerMetrics { open_connections: self.open_connections.wrapping_sub(1), ..self }
    }

    /// A batch of datagrams came in.
    pub open spec fn received(self, datagrams: u64, bytes: u64) -> ServerMetrics {
        ServerMetrics {
            datagrams: self.datagrams.wrapping_add(datagrams),
            datagram_bytes: self.datagram_bytes.wrapping_add(bytes),
            ..self
        }
    }

    /// The counts with all but the open connections back at zero.
    pub open spec fn reset(self) -> ServerMetrics {
        ServerMetrics {
            open_connections: self.open_connections,
            accepted: 0,
            accept_errors: 0,
            datagrams: 0,
            datagram_bytes: 0,
        }
    }

    /// The counts at the start.
    pub fn new() -> (metrics: ServerMetrics)
        ensures
            metrics == (ServerMetrics {
                open_connections: 0,
                accepted: 0,
                accept_errors: 0,
                datagrams: 0,
                datagram_bytes: 0,
            }),
    {
        ServerMetrics {
            open_connections: 0,
            accepted: 0,
            accept_errors: 0,
            datagrams: 0,
            datagram_bytes: 0,
        }
    }

    /// Counts a handshake that has come to an end and says how its task goes on.
    pub fn end_handshake(&mut self, connected: bool) -> (outcome: HandshakeOutcome)
        ensures
            *final(self) == if connected {
                old(self).opened()
            } else {
                old(self).failed()
            },
            outcome == if connected {
                HandshakeOutcome::Read
            } else {
                HandshakeOutcome::Finish
            },
    {
        if connected {
            self.open_connections = self.open_connections.wrapping_add(1);
            self.accepted = self.accepted.wrapping_add(1);
            HandshakeOutcome::Read
        } else {
            self.accept_errors = self.accept_errors.wrapping_add(1);
            HandshakeOutcome::Finish
        }
    }

    /// Counts a batch of datagrams of the given lengths: their number and their bytes.
    pub fn count_batch(&mut self, lengths: &Vec<usize>)
        requires
            total_bytes(lengths@) <= u64::MAX,
        ensures
            *final(self) == old(self).received(
                lengths.len() as u64,
                total_bytes(lengths@) as u64,
            ),
    {
        if let Some(bytes) = batch_bytes(lengths) {
            self.datagrams = self.datagrams.wrapping_add(lengths.len() as u64);
            self.datagram_bytes = self.datagram_bytes.wrapping_add(bytes);
        }
    }

    /// Counts a connection that came to its end.
    pub fn end_connection(&mut self)
        ensures
            *final(self) == old(self).closed(),
    {
        self.open_connections = self.open_connections.wrapping_sub(1);
    }

    /// Reports the counts of the time since the last report and starts them over.
    pub fn report(&mut self, elapsed: Duration) -> (line: String)
        ensures
            line@ == server_report(
                *old(self),
                duration_secs(elapsed) as nat,
                duration_nanos(elapsed) as nat,
            ),
            *final(self) == old(self).reset(),
    {
        let m = *self;
        self.accepted = 0;
        self.accept_errors = 0;
        self.datagrams = 0;
        self.datagram_bytes = 0;
        let throughput = format_bitrate(m.datagram_bytes, elapsed);
        let mut line = String::new();
        push_text(&mut line, "open_connections=");
        push_decimal(&mut line, m.open_connections as u128);
        push_text(&mut line, " accepted/s=");
        push_decimal(&mut line, m.accepted as u128);
        push_text(&mut line, " accept_errors/s=");
        push_decimal(&mut line, m.accept_errors as u128);
        push_text(&mut line, " datagrams/s=");
        push_decimal(&mut line, m.datagrams as u128);
        push_text(&mut line, " datagram_throughput=");
        push_text(&mut line, throughput.as_str());
        assert(line@ =~= server_report(m, duration_secs(elapsed) as nat, duration_nanos(elapsed) as nat));
        line
    }
}

/// The line that reports the counts of a given time.
pub open spec fn server_report(m: ServerMetrics, secs: nat, nanos: nat) -> Seq<char> {
    "open_connections="@ + decimal(m.open_connections as nat) + " accepted/s="@ + decimal(
        m.accepted as nat,
    ) + " accept_errors/s="@ + decimal(m.accept_errors as nat) + " datagrams/s="@ + decimal(
        m.datagrams as nat,
    ) + " datagram_throughput="@ + bitrate_text(m.datagram_bytes as nat, secs, nanos)
}

/// The bytes of two batches add up, and a batch of one datagram has its bytes.
pub proof fn law_batches_add_up(first: Seq<usize>, second: Seq<usize>, length: usize)
    ensures
        total_bytes(first + second) == total_bytes(first) + total_bytes(second),
        total_bytes(seq![length]) == length,
        total_bytes(Seq::empty()) == 0,
    decreases second.len(),
{
    assert(seq![length].drop_last() =~= Seq::empty());
    assert(total_bytes(Seq::<usize>::empty()) == 0);
    assert(seq![length].last() == length);
    if second.len() == 0 {
        assert(first + second =~= first);
    } else {
        assert((first + second).drop_last() =~= first + second.drop_last());
        law_batches_add_up(first, second.drop_last(), length);
    }
}

} // verus!
