use russl::error::ScanError;
use russl::scanner::handshake::{
    attempt_handshake, present, probe_protocols, server_name, HandshakeInfo,
};
use russl::scanner::vulns::check_all;
use russl::scanner::Target;

fn failed() -> Result<HandshakeInfo, ScanError> {
    Err(ScanError::Timeout)
}

fn target() -> Target {
    Target { host: "example.com".to_string(), port: 443 }
}

#[test]
fn handshakes_are_described_by_name() {
    let info = attempt_handshake(Some(0x1301), Some(0x001d));
    assert_eq!(info.cipher.as_deref(), Some("TLS13_AES_128_GCM_SHA256"));
    assert_eq!(info.group.as_deref(), Some("X25519"));
    let odd = attempt_handshake(Some(0x000a), Some(0x0a1b));
    assert_eq!(odd.cipher.as_deref(), Some("CipherSuite(0xa)"));
    assert_eq!(odd.group.as_deref(), Some("NamedGroup(0xa1b)"));
    let none = attempt_handshake(None, None);
    assert!(none.cipher.is_none() && none.group.is_none());
}

#[test]
fn every_named_suite_and_group() {
    let suites = [
        (0x0000, "TLS_NULL_WITH_NULL_NULL"),
        (0x00a8, "TLS_PSK_WITH_AES_128_GCM_SHA256"),
        (0x00a9, "TLS_PSK_WITH_AES_256_GCM_SHA384"),
        (0x00ff, "TLS_EMPTY_RENEGOTIATION_INFO_SCSV"),
        (0x1301, "TLS13_AES_128_GCM_SHA256"),
        (0x1302, "TLS13_AES_256_GCM_SHA384"),
        (0x1303, "TLS13_CHACHA20_POLY1305_SHA256"),
        (0x1304, "TLS13_AES_128_CCM_SHA256"),
        (0x1305, "TLS13_AES_128_CCM_8_SHA256"),
        (0xc009, "TLS_ECDHE_ECDSA_WITH_AES_128_CBC_SHA"),
        (0xc00a, "TLS_ECDHE_ECDSA_WITH_AES_256_CBC_SHA"),
        (0xc013, "TLS_ECDHE_RSA_WITH_AES_128_CBC_SHA"),
        (0xc014, "TLS_ECDHE_RSA_WITH_AES_256_CBC_SHA"),
        (0xc023, "TLS_ECDHE_ECDSA_WITH_AES_128_CBC_SHA256"),
        (0xc024, "TLS_ECDHE_ECDSA_WITH_AES_256_CBC_SHA384"),
        (0xc027, "TLS_ECDHE_RSA_WITH_AES_128_CBC_SHA256"),
        (0xc028, "TLS_ECDHE_RSA_WITH_AES_256_CBC_SHA384"),
        (0xc02b, "TLS_ECDHE_ECDSA_WITH_AES_128_GCM_SHA256"),
        (0xc02c, "TLS_ECDHE_ECDSA_WITH_AES_256_GCM_SHA384"),
        (0xc02f, "TLS_ECDHE_RSA_WITH_AES_128_GCM_SHA256"),
        (0xc030, "TLS_ECDHE_RSA_WITH_AES_256_GCM_SHA384"),
        (0xcca8, "TLS_ECDHE_RSA_WITH_CHACHA20_POLY1305_SHA256"),
        (0xcca9, "TLS_ECDHE_ECDSA_WITH_CHACHA20_POLY1305_SHA256"),
    ];
    let groups = [
        (0x0017, "secp256r1"),
        (0x0018, "secp384r1"),
        (0x0019, "secp521r1"),
        (0x001d, "X25519"),
        (0x001e, "X448"),
        (0x0100, "FFDHE2048"),
        (0x0101, "FFDHE3072"),
        (0x0102, "FFDHE4096"),
        (0x0103, "FFDHE6144"),
        (0x0104, "FFDHE8192"),
        (0x0200, "MLKEM512"),
        (0x0201, "MLKEM768"),
        (0x0202, "MLKEM1024"),
        (0x11eb, "secp256r1MLKEM768"),
        (0x11ec, "X25519MLKEM768"),
    ];
    for code in 0..=0xffffu16 {
        let info = attempt_handshake(Some(code), Some(code));
        let suite = suites.iter().find(|s| s.0 == code);
        let group = groups.iter().find(|g| g.0 == code);
        let cipher = info.cipher.unwrap();
        match suite {
            Some((_, name)) => assert_eq!(cipher, *name),
            None => assert_eq!(cipher, format!("CipherSuite(0x{code:x})")),
        }
        let named = info.group.unwrap();
        match group {
            Some((_, name)) => assert_eq!(named, *name),
            None => assert_eq!(named, format!("NamedGroup(0x{code:x})")),
        }
    }
}

#[test]
fn every_version_has_a_row() {
    let rows = probe_protocols(
        failed(),
        failed(),
        Ok(attempt_handshake(Some(0xc02f), Some(0x0017))),
        Ok(attempt_handshake(Some(0x1302), None)),
    )
    .unwrap();
    let versions: Vec<&str> = rows.iter().map(|r| r.version.as_str()).collect();
    assert_eq!(versions, ["TLS 1.0", "TLS 1.1", "TLS 1.2", "TLS 1.3"]);
    assert!(!rows[0].supported && rows[0].negotiated_cipher.is_none());
    assert!(rows[2].supported);
    assert_eq!(
        rows[2].negotiated_cipher.as_deref(),
        Some("TLS_ECDHE_RSA_WITH_AES_128_GCM_SHA256")
    );
    assert_eq!(rows[2].negotiated_group.as_deref(), Some("secp256r1"));
    assert!(rows[3].supported && rows[3].negotiated_group.is_none());
}

#[test]
fn old_versions_are_flagged() {
    let info = || Ok(attempt_handshake(None, None));
    let modern = probe_protocols(failed(), failed(), info(), info()).unwrap();
    let checks = check_all(&target(), &modern).unwrap();
    assert_eq!(checks.len(), 4);
    assert!(checks.iter().all(|c| !c.vulnerable));
    let old = probe_protocols(info(), info(), failed(), failed()).unwrap();
    let checks = check_all(&target(), &old).unwrap();
    let flags: Vec<bool> = checks.iter().map(|c| c.vulnerable).collect();
    assert_eq!(flags, [false, true, true, false]);
    assert_eq!(checks[0].name, "POODLE");
    assert_eq!(checks[1].name, "BEAST");
    assert_eq!(checks[1].severity, "Medium");
    assert_eq!(checks[2].name, "Deprecated TLS 1.1");
    assert_eq!(checks[2].description, "TLS 1.1 is deprecated per RFC 8996");
    assert_eq!(checks[3].name, "Heartbleed (CVE-2014-0160)");
    assert_eq!(checks[3].severity, "Critical");
}

#[test]
fn checks_on_no_protocols_flag_nothing() {
    let checks = check_all(&target(), &[]).unwrap();
    assert_eq!(checks.len(), 4);
    assert!(checks.iter().all(|c| !c.vulnerable));
}

#[test]
fn server_names() {
    assert_eq!(server_name("example.com").unwrap(), "example.com");
    assert_eq!(server_name("192.0.2.1").unwrap(), "192.0.2.1");
    for host in ["", "exa mple.com", "a..b"] {
        match server_name(host) {
            Err(ScanError::InvalidName(s)) => assert_eq!(s, "invalid dns name"),
            other => panic!("unexpected: {other:?}"),
        }
    }
    assert_eq!(present(Ok("h".to_string())).unwrap(), "h");
    assert!(matches!(present(Err("why".to_string())), Err(ScanError::InvalidName(s)) if s == "why"));
}
