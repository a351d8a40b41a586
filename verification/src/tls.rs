//! TLS: the certificate of the server and the configurations of both ends.

use quinn::crypto::rustls::{NoInitialCipherSuite, QuicClientConfig};
use quinn::rustls;
use quinn::{ClientConfig, ServerConfig, TransportConfig};
use std::sync::Arc;
use vstd::prelude::*;

verus! {

/// The name that the server's certificate is for.
pub const SERVER_NAME: &'static str = "localhost";

/// [`quinn::ServerConfig`].
#[verifier::external_type_specification]
#[verifier::external_body]
pub struct ExServerConfig(quinn::ServerConfig);

/// [`quinn::ClientConfig`].
#[verifier::external_type_specification]
#[verifier::external_body]
pub struct ExClientConfig(quinn::ClientConfig);

/// [`rustls::ClientConfig`].
#[verifier::external_type_specification]
#[verifier::external_body]
pub struct ExTlsClientConfig(quinn::rustls::ClientConfig);

/// [`QuicClientConfig`].
#[verifier::external_type_specification]
#[verifier::external_body]
pub struct ExQuicClientConfig(quinn::crypto::rustls::QuicClientConfig);

/// [`NoInitialCipherSuite`].
#[verifier::external_type_specification]
#[verifier::external_body]
pub struct ExNoInitialCipherSuite(quinn::crypto::rustls::NoInitialCipherSuite);

/// [`rcgen::Error`].
#[verifier::external_type_specification]
#[verifier::external_body]
pub struct ExCertificateError(rcgen::Error);

/// [`rustls::Error`].
#[verifier::external_type_specification]
#[verifier::external_body]
pub struct ExTlsError(quinn::rustls::Error);

/// A certificate and the private key that belongs to it, both in DER.
pub struct Identity {
    /// The X.509 certificate.
    pub certificate: Vec<u8>,
    /// The private key in PKCS #8 form.
    pub private_key: Vec<u8>,
}

/// Why there is no server configuration.
pub enum ServerConfigError {
    /// No certificate could be generated.
    Certificate(rcgen::Error),
    /// The certificate or its key was refused.
    Identity(rustls::Error),
}

/// Why there is no client configuration.
pub enum ClientConfigError {
    /// The TLS configuration lacks the cipher suite that QUIC starts with.
    NoInitialCipherSuite(NoInitialCipherSuite),
}

/// The transport that a [`ServerConfig`] holds.
pub uninterp spec fn server_transport(config: ServerConfig) -> TransportConfig;

/// The certificate chain that a [`ServerConfig`] presents, and behind it the private key.
pub uninterp spec fn server_identity(config: ServerConfig) -> Seq<Seq<u8>>;

/// The transport that a [`ClientConfig`] holds.
pub uninterp spec fn client_transport(config: ClientConfig) -> TransportConfig;

/// The names that a certificate in DER is valid for.
pub uninterp spec fn certificate_names(certificate: Seq<u8>) -> Seq<Seq<char>>;

/// Whether a certificate in DER is for the public key that belongs to a private key in
/// PKCS #8 form, and is signed with that private key.
pub uninterp spec fn self_signed_with(certificate: Seq<u8>, private_key: Seq<u8>) -> bool;

/// Whether rustls can read the private key and finds nothing in the certificate that
/// speaks against it. An identity of which this does not hold is never taken.
pub uninterp spec fn identity_accepted(certificate: Seq<u8>, private_key: Seq<u8>) -> bool;

/// Whether a TLS configuration offers the cipher suite that QUIC starts with.
pub uninterp spec fn offers_initial_suite(crypto: rustls::ClientConfig) -> bool;

/// The TLS configuration inside a [`QuicClientConfig`].
pub uninterp spec fn quic_tls(crypto: QuicClientConfig) -> rustls::ClientConfig;

/// The TLS configuration inside a [`ClientConfig`].
pub uninterp spec fn client_tls(config: ClientConfig) -> rustls::ClientConfig;

/// The texts of strings.
pub open spec fn texts(strings: Seq<String>) -> Seq<Seq<char>> {
    strings.map_values(|s: String| s@)
}

/// A name of small letters only, which is no IP address.
pub open spec fn is_plain_name(name: Seq<char>) -> bool {
    forall|i: int| 0 <= i < name.len() ==> 'a' <= #[trigger] name[i] <= 'z'
}

/// `rcgen::generate_simple_self_signed` makes a fresh key pair and a certificate
/// for it that is signed with it and is valid for the given names. Names in small
/// letters are the certificate's names as they are. Which key comes out, and whether
/// one does, is left to chance.
#[verifier::external_body]
fn generate_identity(names: Vec<String>) -> (r: Result<Identity, rcgen::Error>)
    ensures
        r matches Ok(identity) ==> self_signed_with(identity.certificate@, identity.private_key@),
        r matches Ok(identity) ==> (forall|i: int|
            0 <= i < names.len() ==> is_plain_name(#[trigger] texts(names@)[i]))
            ==> certificate_names(identity.certificate@) == texts(names@),
{
    let generated = rcgen::generate_simple_self_signed(names)?;
    Ok(Identity {
        certificate: generated.cert.der().to_vec(),
        private_key: generated.signing_key.serialize_der(),
    })
}

/// `ServerConfig::with_single_cert` presents a chain of one certificate with its
/// private key. It fails where rustls does not take the key as the certificate's.
/// Loading a key draws random bytes and also fails where none are to be had, so nothing
/// is said of when the call succeeds.
#[verifier::external_body]
fn single_certificate(identity: Identity) -> (r: Result<ServerConfig, rustls::Error>)
    ensures
        match r {
            Ok(config) => {
                &&& identity_accepted(identity.certificate@, identity.private_key@)
                &&& server_identity(config) == seq![
                    identity.certificate@,
                    identity.private_key@,
                ]
            },
            Err(_) => true,
        },
{
    ServerConfig::with_single_cert(
        vec![identity.certificate.into()],
        rustls::pki_types::PrivateKeyDer::Pkcs8(identity.private_key.into()),
    )
}

/// `ServerConfig::transport_config` puts in the very transport it is given and
/// replaces nothing else.
#[verifier::external_body]
fn set_server_transport(config: &mut ServerConfig, transport: Arc<TransportConfig>)
    ensures
        server_transport(*final(config)) == *transport,
        server_identity(*final(config)) == server_identity(*old(config)),
{
    config.transport_config(transport);
}

/// `QuicClientConfig::try_from` wraps a TLS configuration that offers the cipher
/// suite that QUIC starts with, and refuses any other.
#[verifier::external_body]
fn quic_client(crypto: rustls::ClientConfig) -> (r: Result<QuicClientConfig, NoInitialCipherSuite>)
    ensures
        match r {
            Ok(quic) => offers_initial_suite(crypto) && quic_tls(quic) == crypto,
            Err(_) => !offers_initial_suite(crypto),
        },
{
    QuicClientConfig::try_from(crypto)
}

/// `ClientConfig::new` makes a configuration around the TLS configuration.
#[verifier::external_body]
fn client_around(quic: QuicClientConfig) -> (config: ClientConfig)
    ensures
        client_tls(config) == quic_tls(quic),
{
    ClientConfig::new(Arc::new(quic))
}

/// `ClientConfig::transport_config` puts in the very transport it is given and
/// replaces nothing else.
#[verifier::external_body]
fn set_client_transport(config: &mut ClientConfig, transport: Arc<TransportConfig>)
    ensures
        client_transport(*final(config)) == *transport,
        client_tls(*final(config)) == client_tls(*old(config)),
{
    config.transport_config(transport);
}

/// Puts the transport into a server configuration that was made with a certificate, or
/// passes on why it was not made.
pub fn server_config_of(
    configured: Result<ServerConfig, rustls::Error>,
    transport: Arc<TransportConfig>,
) -> (r: Result<ServerConfig, ServerConfigError>)
    ensures
        match configured {
            Ok(before) => {
                &&& r matches Ok(config)
                &&& server_identity(config) == server_identity(before)
                &&& server_transport(config) == *transport
            },
            Err(error) => r == Err::<ServerConfig, ServerConfigError>(
                ServerConfigError::Identity(error),
            ),
        },
{
    match configured {
        Ok(config) => {
            let mut config = config;
            set_server_transport(&mut config, transport);
            Ok(config)
        },
        Err(error) => Err(ServerConfigError::Identity(error)),
    }
}

/// What comes of a configuration that was made with a certificate, or was not: the same
/// with the transport in it, or the very error.
pub open spec fn follows_configured(
    r: Result<ServerConfig, ServerConfigError>,
    configured: Result<ServerConfig, rustls::Error>,
    transport: TransportConfig,
) -> bool {
    match configured {
        Ok(before) => {
            &&& r matches Ok(config)
            &&& server_identity(config) == server_identity(before)
            &&& server_transport(config) == transport
        },
        Err(error) => r == Err::<ServerConfig, ServerConfigError>(
            ServerConfigError::Identity(error),
        ),
    }
}

/// An attempt to make a configuration with a certificate and its key came out so.
pub closed spec fn configured_with(
    identity: Identity,
    configured: Result<ServerConfig, rustls::Error>,
) -> bool {
    call_ensures(single_certificate, (identity,), configured)
}

/// An attempt to make a certificate for the given names came out so.
pub closed spec fn generated_for(
    names: Vec<String>,
    generated: Result<Identity, rcgen::Error>,
) -> bool {
    call_ensures(generate_identity, (names,), generated)
}

/// Applies a function once.
fn apply<A, B, F: FnOnce(A) -> B>(f: F, a: A) -> (b: B)
    requires
        call_requires(f, (a,)),
    ensures
        call_ensures(f, (a,), b),
{
    f(a)
}

/// The server configuration with a given certificate and transport. It fails only where
/// the certificate with its key was refused.
pub fn server_config_with(identity: Identity, transport: Arc<TransportConfig>) -> (r: Result<
    ServerConfig,
    ServerConfigError,
>)
    ensures
        match r {
            Ok(config) => {
                &&& identity_accepted(identity.certificate@, identity.private_key@)
                &&& server_identity(config) == seq![
                    identity.certificate@,
                    identity.private_key@,
                ]
                &&& server_transport(config) == *transport
            },
            Err(ServerConfigError::Identity(_)) => true,
            Err(ServerConfigError::Certificate(_)) => false,
        },
        exists|configured: Result<ServerConfig, rustls::Error>| #[trigger]
            configured_with(identity, configured) && follows_configured(r, configured, *transport),
{
    let configured = apply(single_certificate, identity);
    assert(configured_with(identity, configured));
    server_config_of(configured, transport)
}

/// A server configuration with a fresh, self-signed certificate for [`SERVER_NAME`]. It
/// fails only where none could be generated, or the one generated was refused.
pub fn server_config(transport: Arc<TransportConfig>) -> (r: Result<
    ServerConfig,
    ServerConfigError,
>)
    ensures
        match r {
            Ok(config) => {
                &&& server_transport(config) == *transport
                &&& server_identity(config).len() == 2
                &&& certificate_names(server_identity(config)[0]) == seq![SERVER_NAME@]
                &&& self_signed_with(server_identity(config)[0], server_identity(config)[1])
                &&& identity_accepted(server_identity(config)[0], server_identity(config)[1])
            },
            Err(ServerConfigError::Identity(_)) => true,
            Err(ServerConfigError::Certificate(_)) => true,
        },
        exists|names: Vec<String>, generated: Result<Identity, rcgen::Error>| #[trigger]
            generated_for(names, generated) && texts(names@) == seq![SERVER_NAME@] && (
            match generated {
                Ok(identity) => exists|configured: Result<ServerConfig, rustls::Error>| #[trigger]
                    configured_with(identity, configured) && follows_configured(
                        r,
                        configured,
                        *transport,
                    ),
                Err(error) => r == Err::<ServerConfig, ServerConfigError>(
                    ServerConfigError::Certificate(error),
                ),
            }),
{
    let names = vec![SERVER_NAME.to_owned()];
    proof {
        reveal_strlit("localhost");
        assert(texts(names@) =~= seq![SERVER_NAME@]);
    }
    let generated = apply(generate_identity, names);
    assert(generated_for(names, generated));
    match generated {
        Ok(identity) => server_config_with(identity, transport),
        Err(error) => Err(ServerConfigError::Certificate(error)),
    }
}

/// A client configuration around a TLS configuration, which takes any certificate
/// where its verifier does.
pub fn insecure_client_config(crypto: rustls::ClientConfig, transport: Arc<TransportConfig>) -> (r:
    Result<ClientConfig, ClientConfigError>)
    ensures
        match r {
            Ok(config) => {
                &&& offers_initial_suite(crypto)
                &&& client_tls(config) == crypto
                &&& client_transport(config) == *transport
            },
            Err(ClientConfigError::NoInitialCipherSuite(_)) => !offers_initial_suite(crypto),
        },
{
    match quic_client(crypto) {
        Ok(quic) => {
            let mut config = client_around(quic);
            set_client_transport(&mut config, transport);
            Ok(config)
        },
        Err(error) => Err(ClientConfigError::NoInitialCipherSuite(error)),
    }
}

} // verus!
