//! The QUIC transport parameters of both ends.

#[allow(unused_imports)]
use crate::duration::{duration_millis, duration_nanos, duration_secs};
use crate::text::push_text;
use quinn::{IdleTimeout, TransportConfig, VarIntBoundsExceeded};
use std::sync::Arc;
use std::time::Duration;
use vstd::prelude::*;

verus! {

/// The bytes of datagrams that are buffered in either direction unless told otherwise.
pub const DEFAULT_DATAGRAM_BUFFER_BYTES: usize = 16 * 1024 * 1024;

/// The seconds without traffic after which a connection ends unless told otherwise.
pub const DEFAULT_IDLE_TIMEOUT_SECS: u64 = 30;

/// The first number too large for a QUIC variable-length integer, `2^62`.
pub const VARINT_END: u64 = 0x4000_0000_0000_0000;

/// What a caller may choose about the transport.
#[derive(Clone, Copy, Debug)]
pub struct TransportOptions {
    /// The bytes of incoming datagrams to buffer.
    pub datagram_receive_buffer: usize,
    /// The bytes of outgoing datagrams to buffer.
    pub datagram_send_buffer: usize,
    /// The time without traffic after which a connection ends; without one it never does.
    pub idle_timeout: Option<Duration>,
    /// Whether to send without congestion control.
    pub no_congestion_control: bool,
}

impl Default for TransportOptions {
    fn default() -> (options: TransportOptions)
        ensures
            options.datagram_receive_buffer == DEFAULT_DATAGRAM_BUFFER_BYTES,
            options.datagram_send_buffer == DEFAULT_DATAGRAM_BUFFER_BYTES,
            options.idle_timeout matches Some(timeout) && duration_secs(timeout)
                == DEFAULT_IDLE_TIMEOUT_SECS && duration_nanos(timeout) == 0,
            !options.no_congestion_control,
    {
        TransportOptions {
            datagram_receive_buffer: DEFAULT_DATAGRAM_BUFFER_BYTES,
            datagram_send_buffer: DEFAULT_DATAGRAM_BUFFER_BYTES,
            idle_timeout: Some(Duration::from_secs(DEFAULT_IDLE_TIMEOUT_SECS)),
            no_congestion_control: false,
        }
    }
}

/// The congestion controller while congestion control is off: it takes no notice of
/// anything that happens, and its window is always as large as a window can be.
#[derive(Clone, Copy, Debug)]
pub struct NoCongestionControl;

impl NoCongestionControl {
    /// The bytes that may be on their way.
    pub fn window(&self) -> (bytes: u64)
        ensures
            bytes == u64::MAX,
    {
        u64::MAX
    }

    /// The bytes that may be on their way at the start of a connection.
    pub fn initial_window(&self) -> (bytes: u64)
        ensures
            bytes == u64::MAX,
    {
        u64::MAX
    }
}

/// The parameters of a [`TransportConfig`] that this library sets.
pub enum Parameter {
    /// How many bidirectional streams the peer may have open.
    BidiStreams,
    /// How many unidirectional streams the peer may have open.
    UniStreams,
    /// The bytes of incoming datagrams to buffer, none to refuse datagrams.
    ReceiveBuffer,
    /// The bytes of outgoing datagrams to buffer.
    SendBuffer,
    /// The idle timeout in milliseconds, none for no timeout.
    IdleTimeout,
}

/// Why the options cannot be put into a [`TransportConfig`].
pub enum TransportError {
    /// The idle timeout has too many milliseconds, and what the conversion said of it.
    IdleTimeout(String),
}

impl TransportError {
    /// The error as text.
    pub fn message(&self) -> (text: String)
        ensures
            text@ == match *self {
                TransportError::IdleTimeout(detail) =>
                    "idle timeout is outside QUIC's valid range: "@ + detail@,
            },
    {
        match self {
            TransportError::IdleTimeout(detail) => {
                let mut text = "idle timeout is outside QUIC's valid range: ".to_owned();
                push_text(&mut text, detail.as_str());
                text
            },
        }
    }
}

/// [`quinn::TransportConfig`].
#[verifier::external_type_specification]
#[verifier::external_body]
pub struct ExTransportConfig(quinn::TransportConfig);

/// [`quinn::IdleTimeout`].
#[verifier::external_type_specification]
#[verifier::external_body]
pub struct ExIdleTimeout(quinn::IdleTimeout);

/// [`quinn::VarIntBoundsExceeded`].
#[verifier::external_type_specification]
#[verifier::external_body]
pub struct ExVarIntBoundsExceeded(quinn::VarIntBoundsExceeded);

/// The parameters that a [`TransportConfig`] holds, of those that this library sets.
pub uninterp spec fn parameters(config: TransportConfig) -> Map<Parameter, Option<nat>>;

/// Whether a [`TransportConfig`] has the congestion controller that
/// `TransportConfig::default` gives it.
pub uninterp spec fn has_default_controller(config: TransportConfig) -> bool;

/// The milliseconds that an [`IdleTimeout`] holds.
pub uninterp spec fn timeout_millis(timeout: IdleTimeout) -> nat;

/// `TransportConfig::default` starts with a hundred streams of either kind, an idle
/// timeout of 30 seconds, datagram buffers of 1,250,000 and 1,048,576 bytes, and a
/// congestion controller.
#[verifier::external_body]
fn default_transport() -> (config: TransportConfig)
    ensures
        parameters(config) == map![
            Parameter::BidiStreams => Some(100nat),
            Parameter::UniStreams => Some(100nat),
            Parameter::ReceiveBuffer => Some(1_250_000nat),
            Parameter::SendBuffer => Some(1_048_576nat),
            Parameter::IdleTimeout => Some(30_000nat),
        ],
        has_default_controller(config),
{
    TransportConfig::default()
}

/// `TransportConfig::max_concurrent_bidi_streams` sets that parameter and no other,
/// and keeps the congestion controller.
#[verifier::external_body]
fn set_bidi_streams(config: &mut TransportConfig, limit: u32)
    ensures
        parameters(*final(config)) == parameters(*old(config)).insert(
            Parameter::BidiStreams,
            Some(limit as nat),
        ),
        has_default_controller(*final(config)) == has_default_controller(*old(config)),
{
    config.max_concurrent_bidi_streams(quinn::VarInt::from_u32(limit));
}

/// `TransportConfig::max_concurrent_uni_streams` sets that parameter and no other,
/// and keeps the congestion controller.
#[verifier::external_body]
fn set_uni_streams(config: &mut TransportConfig, limit: u32)
    ensures
        parameters(*final(config)) == parameters(*old(config)).insert(
            Parameter::UniStreams,
            Some(limit as nat),
        ),
        has_default_controller(*final(config)) == has_default_controller(*old(config)),
{
    config.max_concurrent_uni_streams(quinn::VarInt::from_u32(limit));
}

/// A size as a mathematical number.
pub open spec fn size_value(size: Option<usize>) -> Option<nat> {
    match size {
        Some(n) => Some(n as nat),
        None => None,
    }
}

/// `TransportConfig::datagram_receive_buffer_size` sets that parameter and no other,
/// and keeps the congestion controller.
#[verifier::external_body]
fn set_receive_buffer(config: &mut TransportConfig, bytes: Option<usize>)
    ensures
        parameters(*final(config)) == parameters(*old(config)).insert(
            Parameter::ReceiveBuffer,
            size_value(bytes),
        ),
        has_default_controller(*final(config)) == has_default_controller(*old(config)),
{
    config.datagram_receive_buffer_size(bytes);
}

/// `TransportConfig::datagram_send_buffer_size` sets that parameter and no other,
/// and keeps the congestion controller.
#[verifier::external_body]
fn set_send_buffer(config: &mut TransportConfig, bytes: usize)
    ensures
        parameters(*final(config)) == parameters(*old(config)).insert(
            Parameter::SendBuffer,
            Some(bytes as nat),
        ),
        has_default_controller(*final(config)) == has_default_controller(*old(config)),
{
    config.datagram_send_buffer_size(bytes);
}

/// A timeout as its milliseconds.
pub open spec fn timeout_value(timeout: Option<IdleTimeout>) -> Option<nat> {
    match timeout {
        Some(t) => Some(timeout_millis(t)),
        None => None,
    }
}

/// `TransportConfig::max_idle_timeout` sets that parameter and no other,
/// and keeps the congestion controller.
#[verifier::external_body]
fn set_idle_timeout(config: &mut TransportConfig, timeout: Option<IdleTimeout>)
    ensures
        parameters(*final(config)) == parameters(*old(config)).insert(
            Parameter::IdleTimeout,
            timeout_value(timeout),
        ),
        has_default_controller(*final(config)) == has_default_controller(*old(config)),
{
    config.max_idle_timeout(timeout);
}

/// `IdleTimeout::try_from` takes a span of time whose whole milliseconds are less
/// than `2^62`, holds those, and refuses any other.
#[verifier::external_body]
fn idle_timeout(span: Duration) -> (r: Result<IdleTimeout, VarIntBoundsExceeded>)
    ensures
        match r {
            Ok(timeout) => {
                &&& duration_millis(span) < VARINT_END
                &&& timeout_millis(timeout) == duration_millis(span)
            },
            Err(_) => duration_millis(span) >= VARINT_END,
        },
{
    IdleTimeout::try_from(span)
}

/// [`VarIntBoundsExceeded`] is displayed as a fixed text.
#[verifier::external_body]
fn bounds_text(error: VarIntBoundsExceeded) -> (text: String)
    ensures
        text@ == "value too large for varint encoding"@,
{
    error.to_string()
}

/// The idle timeout that options ask for, in milliseconds.
pub open spec fn requested_timeout(options: TransportOptions) -> Option<nat> {
    match options.idle_timeout {
        Some(span) => Some(duration_millis(span)),
        None => None,
    }
}

/// The parameters that options ask for: datagrams only, hence no streams.
pub open spec fn requested_parameters(options: TransportOptions) -> Map<Parameter, Option<nat>> {
    map![
        Parameter::BidiStreams => Some(0nat),
        Parameter::UniStreams => Some(0nat),
        Parameter::ReceiveBuffer => Some(options.datagram_receive_buffer as nat),
        Parameter::SendBuffer => Some(options.datagram_send_buffer as nat),
        Parameter::IdleTimeout => requested_timeout(options),
    ]
}

/// A config has the parameters that options ask for and the default controller.
pub open spec fn follows(config: TransportConfig, options: TransportOptions) -> bool {
    &&& parameters(config) == requested_parameters(options)
    &&& has_default_controller(config)
}

/// The idle timeout that options ask for is one that QUIC can express.
pub open spec fn timeout_in_range(options: TransportOptions) -> bool {
    requested_timeout(options) matches Some(millis) ==> millis < VARINT_END
}

/// A function that puts another congestion controller into a [`TransportConfig`] and
/// keeps the parameters.
pub open spec fn replaces_controller<F: FnOnce(TransportConfig) -> TransportConfig>(
    f: F,
) -> bool {
    forall|before: TransportConfig, after: TransportConfig| #[trigger]
        call_ensures(f, (before,), after) ==> parameters(after) == parameters(before)
            && !has_default_controller(after)
}

/// Puts the options into a [`TransportConfig`]. `uncontrolled` gets the finished
/// config where the options ask for no congestion control, to install a controller
/// that does nothing; otherwise the default controller stays.
pub fn transport_config<F: FnOnce(TransportConfig) -> TransportConfig>(
    options: TransportOptions,
    uncontrolled: F,
) -> (r: Result<Arc<TransportConfig>, TransportError>)
    requires
        forall|config: TransportConfig| call_requires(uncontrolled, (config,)),
    ensures
        match r {
            Ok(transport) => {
                &&& timeout_in_range(options)
                &&& if options.no_congestion_control {
                    exists|config: TransportConfig| #[trigger]
                        follows(config, options) && call_ensures(
                            uncontrolled,
                            (config,),
                            *transport,
                        )
                } else {
                    follows(*transport, options)
                }
            },
            Err(TransportError::IdleTimeout(detail)) => {
                &&& !timeout_in_range(options)
                &&& detail@ == "value too large for varint encoding"@
            },
        },
        r matches Ok(transport) ==> replaces_controller(uncontrolled) ==> {
            &&& parameters(*transport) == requested_parameters(options)
            &&& has_default_controller(*transport) <==> !options.no_congestion_control
        },
{
    let mut transport = default_transport();
    set_bidi_streams(&mut transport, 0);
    set_uni_streams(&mut transport, 0);
    set_receive_buffer(&mut transport, Some(options.datagram_receive_buffer));
    set_send_buffer(&mut transport, options.datagram_send_buffer);
    let timeout = match options.idle_timeout {
        Some(span) => match idle_timeout(span) {
            Ok(timeout) => Some(timeout),
            Err(error) => {
                return Err(TransportError::IdleTimeout(bounds_text(error)));
            },
        },
        None => None,
    };
    set_idle_timeout(&mut transport, timeout);
    assert(follows(transport, options)) by {
        assert(parameters(transport) =~= requested_parameters(options));
    }
    if options.no_congestion_control {
        transport = uncontrolled(transport);
    }
    Ok(Arc::new(transport))
}

/// A config that follows the options has no streams, the buffers of the options and
/// their idle timeout in whole milliseconds, and the options can be followed exactly if
/// that timeout takes no more than 62 bits.
pub proof fn law_config_has_what_was_asked_for(config: TransportConfig, options: TransportOptions)
    requires
        follows(config, options),
    ensures
        parameters(config)[Parameter::BidiStreams] == Some(0nat),
        parameters(config)[Parameter::UniStreams] == Some(0nat),
        parameters(config)[Parameter::ReceiveBuffer] == Some(
            options.datagram_receive_buffer as nat,
        ),
        parameters(config)[Parameter::SendBuffer] == Some(options.datagram_send_buffer as nat),
        match options.idle_timeout {
            None => parameters(config)[Parameter::IdleTimeout] == None::<nat>
                && timeout_in_range(options),
            Some(span) => {
                let nanos = duration_secs(span) * 1_000_000_000 + duration_nanos(span);
                &&& parameters(config)[Parameter::IdleTimeout] matches Some(millis)
                &&& millis * 1_000_000 <= nanos < (millis + 1) * 1_000_000
                &&& timeout_in_range(options) <==> millis < 0x4000_0000_0000_0000
            },
        },
        has_default_controller(config),
{
}

} // verus!
