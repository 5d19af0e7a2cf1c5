use russl::scanner::ciphers::{classify, classify_name, enumerate, PROBE_SUITES};
use rustls::crypto::ring::cipher_suite;

#[test]
fn strength_buckets() {
    assert_eq!(classify(u16::from(cipher_suite::TLS13_AES_256_GCM_SHA384.suite())), "Strong");
    assert_eq!(
        classify(u16::from(cipher_suite::TLS13_CHACHA20_POLY1305_SHA256.suite())),
        "Strong"
    );
    assert_eq!(classify(u16::from(cipher_suite::TLS13_AES_128_GCM_SHA256.suite())), "Adequate");
}

#[test]
fn probe_codes_are_those_of_the_tls_stack() {
    let suites = [
        cipher_suite::TLS13_AES_256_GCM_SHA384,
        cipher_suite::TLS13_AES_128_GCM_SHA256,
        cipher_suite::TLS13_CHACHA20_POLY1305_SHA256,
        cipher_suite::TLS_ECDHE_RSA_WITH_AES_256_GCM_SHA384,
        cipher_suite::TLS_ECDHE_RSA_WITH_AES_128_GCM_SHA256,
        cipher_suite::TLS_ECDHE_RSA_WITH_CHACHA20_POLY1305_SHA256,
    ];
    for (suite, code) in suites.iter().zip(PROBE_SUITES) {
        assert_eq!(u16::from(suite.suite()), code);
    }
}

#[test]
fn other_suites_are_weak() {
    assert_eq!(classify_name("TLS_RSA_WITH_3DES_EDE_CBC_SHA"), "Weak");
    assert_eq!(classify_name("TLS_AES_128_AES_256"), "Strong");
    // a suite without a name of its own
    assert_eq!(classify(0x000a), "Weak");
}

#[test]
fn enumeration_reports_in_probe_order() {
    let rows = enumerate(&[Some(true), Some(false), None, Some(true), Some(false), Some(true)]);
    assert_eq!(rows.len(), 5);
    assert_eq!(rows[0].suite, "TLS13_AES_256_GCM_SHA384");
    assert!(rows[0].accepted);
    assert_eq!(rows[0].strength, "Strong");
    assert_eq!(rows[1].suite, "TLS13_AES_128_GCM_SHA256");
    assert!(!rows[1].accepted);
    assert_eq!(rows[1].strength, "Adequate");
    assert_eq!(rows[2].suite, "TLS_ECDHE_RSA_WITH_AES_256_GCM_SHA384");
    assert_eq!(rows[3].suite, "TLS_ECDHE_RSA_WITH_AES_128_GCM_SHA256");
    assert_eq!(rows[4].suite, "TLS_ECDHE_RSA_WITH_CHACHA20_POLY1305_SHA256");
    assert!(enumerate(&[None; 6]).is_empty());
}

#[test]
fn no_probed_suite_is_weak() {
    for row in enumerate(&[Some(true); 6]) {
        assert_ne!(row.strength, "Weak");
    }
}
