use std::sync::Arc;
use std::time::Duration;

use datagram_bench::tls::{server_config_of, server_config_with, Identity, ServerConfigError};
use datagram_bench::transport::TransportError;
use datagram_bench::{
    insecure_client_config, server_config, transport_config, NoCongestionControl,
    TransportOptions, SERVER_NAME,
};
use quinn::rustls;
use quinn::rustls::client::danger::{
    HandshakeSignatureValid, ServerCertVerified, ServerCertVerifier,
};
use quinn::rustls::pki_types::{CertificateDer, ServerName, UnixTime};
use quinn::rustls::{DigitallySignedStruct, SignatureScheme};
use quinn::TransportConfig;

/// Takes any certificate.
#[derive(Debug)]
struct AnyCertificate {
    provider: rustls::crypto::CryptoProvider,
}

impl ServerCertVerifier for AnyCertificate {
    fn verify_server_cert(
        &self,
        _end_entity: &CertificateDer<'_>,
        _intermediates: &[CertificateDer<'_>],
        _server_name: &ServerName<'_>,
        _ocsp: &[u8],
        _now: UnixTime,
    ) -> Result<ServerCertVerified, rustls::Error> {
        Ok(ServerCertVerified::assertion())
    }

    fn verify_tls12_signature(
        &self,
        message: &[u8],
        cert: &CertificateDer<'_>,
        dss: &DigitallySignedStruct,
    ) -> Result<HandshakeSignatureValid, rustls::Error> {
        let algorithms = &self.provider.signature_verification_algorithms;
        rustls::crypto::verify_tls12_signature(message, cert, dss, algorithms)
    }

    fn verify_tls13_signature(
        &self,
        message: &[u8],
        cert: &CertificateDer<'_>,
        dss: &DigitallySignedStruct,
    ) -> Result<HandshakeSignatureValid, rustls::Error> {
        let algorithms = &self.provider.signature_verification_algorithms;
        rustls::crypto::verify_tls13_signature(message, cert, dss, algorithms)
    }

    fn supported_verify_schemes(&self) -> Vec<SignatureScheme> {
        self.provider.signature_verification_algorithms.supported_schemes()
    }
}

fn crypto() -> rustls::ClientConfig {
    let provider = rustls::crypto::ring::default_provider();
    rustls::ClientConfig::builder()
        .dangerous()
        .with_custom_certificate_verifier(Arc::new(AnyCertificate { provider }))
        .with_no_client_auth()
}

fn transport(options: TransportOptions) -> Arc<TransportConfig> {
    match transport_config(options, |config| config) {
        Ok(config) => config,
        Err(error) => panic!("{}", error.message()),
    }
}

#[test]
fn default_options() {
    let options = TransportOptions::default();
    assert_eq!(options.datagram_receive_buffer, 16_777_216);
    assert_eq!(options.datagram_send_buffer, 16_777_216);
    assert_eq!(options.idle_timeout, Some(Duration::from_secs(30)));
    assert!(!options.no_congestion_control);
}

#[test]
fn windows_without_congestion_control() {
    assert_eq!(NoCongestionControl.window(), u64::MAX);
    assert_eq!(NoCongestionControl.initial_window(), u64::MAX);
}

#[test]
fn options_reach_the_transport() {
    let shown = format!(
        "{:?}",
        transport(TransportOptions {
            datagram_receive_buffer: 1_234,
            datagram_send_buffer: 5_678,
            idle_timeout: Some(Duration::new(12, 345_999_999)),
            no_congestion_control: false,
        })
    );
    assert!(shown.contains("max_concurrent_bidi_streams: 0,"), "{shown}");
    assert!(shown.contains("max_concurrent_uni_streams: 0,"), "{shown}");
    assert!(shown.contains("datagram_receive_buffer_size: Some(1234),"), "{shown}");
    assert!(shown.contains("datagram_send_buffer_size: 5678,"), "{shown}");
    assert!(shown.contains("max_idle_timeout: Some(12345),"), "{shown}");
}

#[test]
fn no_idle_timeout_is_none() {
    let shown = format!(
        "{:?}",
        transport(TransportOptions { idle_timeout: None, ..TransportOptions::default() })
    );
    assert!(shown.contains("max_idle_timeout: None,"), "{shown}");
}

#[test]
fn an_unset_transport_has_the_stated_parameters() {
    let shown = format!("{:?}", TransportConfig::default());
    assert!(shown.contains("max_concurrent_bidi_streams: 100,"), "{shown}");
    assert!(shown.contains("max_concurrent_uni_streams: 100,"), "{shown}");
    assert!(shown.contains("datagram_receive_buffer_size: Some(1250000),"), "{shown}");
    assert!(shown.contains("datagram_send_buffer_size: 1048576,"), "{shown}");
    assert!(shown.contains("max_idle_timeout: Some(30000),"), "{shown}");
}

#[test]
fn an_idle_timeout_must_be_a_varint() {
    let largest = 4_611_686_018_427_387;
    let options = |secs, nanos| TransportOptions {
        idle_timeout: Some(Duration::new(secs, nanos)),
        ..TransportOptions::default()
    };
    assert!(transport_config(options(largest, 903_999_999), |config| config).is_ok());
    let error = match transport_config(options(largest, 904_000_000), |config| config) {
        Ok(_) => panic!("a timeout of 2^62 milliseconds"),
        Err(error) => error,
    };
    let TransportError::IdleTimeout(detail) = &error;
    assert_eq!(detail, "value too large for varint encoding");
    assert_eq!(
        error.message(),
        "idle timeout is outside QUIC's valid range: value too large for varint encoding"
    );
    assert!(transport_config(options(u64::MAX, 0), |config| config).is_err());
}

#[test]
fn a_controller_is_installed_only_without_congestion_control() {
    for no_congestion_control in [false, true] {
        let mut installed = false;
        let options = TransportOptions { no_congestion_control, ..TransportOptions::default() };
        let result = transport_config(options, |mut config| {
            installed = true;
            config.initial_mtu(1_321);
            config
        });
        assert_eq!(installed, no_congestion_control);
        let shown = match result {
            Ok(config) => format!("{config:?}"),
            Err(error) => panic!("{}", error.message()),
        };
        assert_eq!(shown.contains("initial_mtu: 1321,"), no_congestion_control);
        assert!(shown.contains("max_concurrent_bidi_streams: 0,"), "{shown}");
    }
}

#[test]
fn configurations_hold_the_very_transport() {
    let options = TransportOptions { datagram_send_buffer: 4_321, ..TransportOptions::default() };
    let given = transport(options);
    let server = match server_config(given.clone()) {
        Ok(config) => config,
        Err(_) => panic!("no server configuration"),
    };
    assert!(Arc::ptr_eq(&server.transport, &given));
    assert_eq!(Arc::strong_count(&given), 2);
    let client = match insecure_client_config(crypto(), given.clone()) {
        Ok(config) => config,
        Err(_) => panic!("no client configuration"),
    };
    assert!(format!("{client:?}").contains("datagram_send_buffer_size: 4321,"));
    assert_eq!(Arc::strong_count(&given), 3);
}

#[test]
fn a_foreign_key_is_refused() {
    let names = vec![SERVER_NAME.to_owned()];
    let one = rcgen::generate_simple_self_signed(names.clone()).unwrap();
    let other = rcgen::generate_simple_self_signed(names).unwrap();
    let certificate = one.cert.der().to_vec();
    let own = Identity {
        certificate: certificate.clone(),
        private_key: one.signing_key.serialize_der(),
    };
    let options = TransportOptions::default();
    assert!(server_config_with(own, transport(options)).is_ok());
    let foreign = Identity { certificate, private_key: other.signing_key.serialize_der() };
    assert!(matches!(
        server_config_with(foreign, transport(options)),
        Err(ServerConfigError::Identity(_))
    ));
}

#[test]
fn a_refused_identity_is_passed_on() {
    let refused = Err(rustls::Error::NoCertificatesPresented);
    match server_config_of(refused, transport(TransportOptions::default())) {
        Err(ServerConfigError::Identity(error)) => {
            assert_eq!(error, rustls::Error::NoCertificatesPresented);
        }
        _ => panic!("a configuration out of nothing"),
    }
}

#[test]
fn a_provider_without_the_initial_suite_is_refused() {
    let mut provider = rustls::crypto::ring::default_provider();
    provider
        .cipher_suites
        .retain(|suite| suite.suite() != rustls::CipherSuite::TLS13_AES_128_GCM_SHA256);
    let crypto = rustls::ClientConfig::builder_with_provider(Arc::new(provider.clone()))
        .with_safe_default_protocol_versions()
        .unwrap()
        .dangerous()
        .with_custom_certificate_verifier(Arc::new(AnyCertificate { provider }))
        .with_no_client_auth();
    assert!(insecure_client_config(crypto, transport(TransportOptions::default())).is_err());
}
