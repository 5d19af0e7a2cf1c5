use russl::error::ScanError;
use russl::output::pretty;
use russl::scanner::cert::{self, days_until, is_weak_key, oid_name, sans};
use russl::scanner::connection::{classify_sni, NoSni};
use russl::scanner::der::{integer, octet_string, sequence, tlv};
use russl::scanner::handshake::ProtocolResult;
use russl::scanner::http::Scheme;
use russl::scanner::ocsp::{self, Query};
use russl::scanner::x509::{
    leaf_subject, AccessDescription, AltName, Certificate, Extension, Summary,
};
use russl::scanner::{run_scan, Action, Event, Scan, ScanOpts, Target};

const OID_RSA: [u8; 9] = [0x2a, 0x86, 0x48, 0x86, 0xf7, 0x0d, 0x01, 0x01, 0x01];
const OID_SHA256_RSA: [u8; 9] = [0x2a, 0x86, 0x48, 0x86, 0xf7, 0x0d, 0x01, 0x01, 0x0b];
const OID_CN: [u8; 3] = [0x55, 0x04, 0x03];
const OID_ORG: [u8; 3] = [0x55, 0x04, 0x0a];
const OID_SAN: [u8; 3] = [0x55, 0x1d, 0x11];
const OID_POLICIES: [u8; 3] = [0x55, 0x1d, 0x20];
const OID_AIA: [u8; 8] = [0x2b, 0x06, 0x01, 0x05, 0x05, 0x07, 0x01, 0x01];
const OID_AD_OCSP: [u8; 8] = [0x2b, 0x06, 0x01, 0x05, 0x05, 0x07, 0x30, 0x01];
const OID_AD_ISSUERS: [u8; 8] = [0x2b, 0x06, 0x01, 0x05, 0x05, 0x07, 0x30, 0x02];
const OID_EV: [u8; 5] = [0x67, 0x81, 0x0c, 0x01, 0x01];

/// 2024-01-01 00:00:00 and 2025-01-01 00:00:00 in seconds since 1970.
const START: i64 = 1_704_067_200;
const END: i64 = 1_735_689_600;

fn oid(value: &[u8]) -> Vec<u8> {
    tlv(0x06, value)
}

fn name(parts: &[(&[u8], &str)]) -> Vec<u8> {
    let rdns: Vec<Vec<u8>> = parts
        .iter()
        .map(|(kind, value)| {
            tlv(0x31, &sequence(&[oid(kind), tlv(0x0c, value.as_bytes())].concat()))
        })
        .collect();
    sequence(&rdns.concat())
}

fn extension(kind: &[u8], value: &[u8]) -> Vec<u8> {
    sequence(&[oid(kind), octet_string(value)].concat())
}

fn rsa_bits(modulus_len: usize) -> Vec<u8> {
    sequence(&[integer(&vec![0xc1; modulus_len]), integer(&[1, 0, 1])].concat())
}

fn certificate(
    serial: &[u8],
    issuer: &[u8],
    subject: &[u8],
    key_bits: &[u8],
    extensions: &[Vec<u8>],
) -> Vec<u8> {
    let algorithm = sequence(&[oid(&OID_SHA256_RSA), tlv(0x05, &[])].concat());
    let validity = sequence(
        &[tlv(0x17, b"240101000000Z"), tlv(0x17, b"250101000000Z")].concat(),
    );
    let key_algorithm = sequence(&[oid(&OID_RSA), tlv(0x05, &[])].concat());
    let key = sequence(&[key_algorithm, tlv(0x03, &[&[0], key_bits].concat())].concat());
    let tbs = sequence(
        &[
            tlv(0xa0, &integer(&[2])),
            integer(serial),
            algorithm.clone(),
            issuer.to_vec(),
            validity,
            subject.to_vec(),
            key,
            tlv(0xa3, &sequence(&extensions.concat())),
        ]
        .concat(),
    );
    sequence(&[tbs, algorithm, tlv(0x03, &[0x00, 0xde, 0xad])].concat())
}

fn leaf() -> Vec<u8> {
    let names = sequence(
        &[
            tlv(0x82, b"example.com"),
            tlv(0x81, b"admin@example.com"),
            tlv(0x82, b"www.example.com"),
            tlv(0x87, &[192, 0, 2, 1]),
        ]
        .concat(),
    );
    let access = sequence(
        &[
            sequence(&[oid(&OID_AD_ISSUERS), tlv(0x86, b"http://ca.example/ca.der")].concat()),
            sequence(&[oid(&OID_AD_OCSP), tlv(0x82, b"not-a-uri")].concat()),
            sequence(&[oid(&OID_AD_OCSP), tlv(0x86, b"http://ocsp.example:8080/q")].concat()),
        ]
        .concat(),
    );
    let policies = sequence(
        &[sequence(&oid(&[0x2a, 0x03])), sequence(&oid(&OID_EV))].concat(),
    );
    certificate(
        &[0x91, 0x02],
        &issuer_name(),
        &name(&[(&OID_ORG, "Example Org"), (&OID_CN, "example.com")]),
        &rsa_bits(256),
        &[
            extension(&OID_SAN, &names),
            extension(&OID_AIA, &access),
            extension(&OID_POLICIES, &policies),
        ],
    )
}

fn issuer_name() -> Vec<u8> {
    name(&[(&OID_CN, "Example CA")])
}

fn issuer() -> Vec<u8> {
    let bare = sequence(&tlv(0x82, b"ca.example"));
    certificate(
        &[0x01],
        &issuer_name(),
        &issuer_name(),
        &rsa_bits(128),
        &[extension(&OID_SAN, &bare)],
    )
}

fn sha1(data: &[u8]) -> Vec<u8> {
    ring::digest::digest(&ring::digest::SHA1_FOR_LEGACY_USE_ONLY, data).as_ref().to_vec()
}

#[test]
fn certificate_is_read_into_plain_values() {
    let c = Certificate::from_der(&leaf()).unwrap();
    assert_eq!(c.summary.subject, "O=Example Org, CN=example.com");
    assert_eq!(c.summary.issuer, "CN=Example CA");
    assert_eq!(c.summary.issuer_raw, issuer_name());
    assert_eq!(c.summary.serial, [0x00, 0x91, 0x02]);
    assert_eq!(c.summary.not_before, "2024-01-01 0:00:00.0 +00:00:00");
    assert_eq!(c.summary.not_after, "2025-01-01 0:00:00.0 +00:00:00");
    assert_eq!(c.summary.expires, END);
    assert_eq!(c.summary.key_algorithm, "1.2.840.113549.1.1.1");
    assert_eq!(c.summary.key_data, rsa_bits(256));
    assert_eq!(c.summary.signature_algorithm, "1.2.840.113549.1.1.11");
    assert_eq!(c.key_size, 2048);
    assert_eq!(c.subject_attributes, ["2.5.4.10", "2.5.4.3"]);
    assert_eq!(c.alt_names.len(), 4);
    assert!(matches!(&c.alt_names[0], AltName::Dns(s) if s == "example.com"));
    assert!(matches!(&c.alt_names[1], AltName::Other));
    assert!(matches!(&c.alt_names[3], AltName::Ip(b) if b == &[192, 0, 2, 1]));
    assert_eq!(c.extensions.len(), 3);
    assert!(matches!(&c.extensions[0], Extension::Other));
    match &c.extensions[1] {
        Extension::AuthorityInfoAccess(entries) => {
            assert_eq!(entries.len(), 3);
            assert_eq!(entries[1].method, "1.3.6.1.5.5.7.48.1");
            assert_eq!(entries[1].uri, None);
            assert_eq!(entries[2].uri.as_deref(), Some("http://ocsp.example:8080/q"));
        }
        other => panic!("unexpected: {other:?}"),
    }
    match &c.extensions[2] {
        Extension::CertificatePolicies(p) => assert_eq!(p, &["1.2.3", "2.23.140.1.1"]),
        other => panic!("unexpected: {other:?}"),
    }
}

#[test]
fn what_is_no_certificate_is_an_error() {
    assert!(matches!(Certificate::from_der(b"junk"), Err(ScanError::CertParse(_))));
    assert_eq!(leaf_subject(b"junk"), None);
    assert_eq!(leaf_subject(&issuer()).as_deref(), Some("CN=Example CA"));
}

#[test]
fn inspection_of_a_chain() {
    let info = cert::inspect(&[leaf(), issuer()], START).unwrap();
    assert_eq!(info.subject, "O=Example Org, CN=example.com");
    assert_eq!(info.issuer, "CN=Example CA");
    assert_eq!(info.sans, ["example.com", "www.example.com", "[192, 0, 2, 1]"]);
    assert_eq!(info.days_remaining, 366);
    assert!(!info.is_expired);
    assert_eq!(info.key_algorithm, "RSA");
    assert_eq!(info.key_bits, Some(2048));
    assert!(!info.weak_key);
    assert_eq!(info.validation_level, "EV");
    assert_eq!(info.signature_algorithm, "sha256WithRSAEncryption");
    assert_eq!(info.chain_depth, 2);
    assert_eq!(info.ocsp_status, None);
    assert_eq!(info.ct_log_entries, None);
    let weak = cert::inspect(&[issuer()], END + 86_400).unwrap();
    assert_eq!(weak.key_bits, Some(1024));
    assert!(weak.weak_key);
    assert_eq!(weak.validation_level, "DV");
    assert_eq!(weak.days_remaining, -1);
    assert!(weak.is_expired);
}

#[test]
fn inspection_needs_a_certificate() {
    match cert::inspect(&[], START) {
        Err(ScanError::CertParse(s)) => assert_eq!(s, "No certificate received"),
        _ => panic!("expected a parse error"),
    }
    assert!(matches!(cert::inspect(&[vec![1, 2, 3]], START), Err(ScanError::CertParse(_))));
}

#[test]
fn days_are_rounded_toward_zero() {
    assert_eq!(days_until(0, 86_399), 0);
    assert_eq!(days_until(0, 86_400), 1);
    assert_eq!(days_until(86_399, 0), 0);
    assert_eq!(days_until(86_400, 0), -1);
    assert_eq!(days_until(i64::MIN, i64::MAX), 213_503_982_334_601);
    assert_eq!(days_until(i64::MAX, i64::MIN), -213_503_982_334_601);
}

#[test]
fn weak_keys_by_algorithm() {
    let (rsa, dsa, ec) = ("1.2.840.113549.1.1.1", "1.2.840.10040.4.1", "1.2.840.10045.2.1");
    assert!(is_weak_key(rsa, Some(2047)) && !is_weak_key(rsa, Some(2048)));
    assert!(is_weak_key(dsa, Some(1024)) && !is_weak_key(dsa, Some(2048)));
    assert!(is_weak_key(ec, Some(255)) && !is_weak_key(ec, Some(256)));
    assert!(!is_weak_key("1.3.101.112", Some(1)));
    assert!(!is_weak_key(rsa, None));
}

#[test]
fn algorithm_names() {
    assert_eq!(oid_name("1.2.840.10045.2.1"), "EC");
    assert_eq!(oid_name("1.2.840.113549.1.1.1"), "RSA");
    assert_eq!(oid_name("1.3.101.112"), "Ed25519");
    assert_eq!(oid_name("1.3.101.110"), "X25519");
    assert_eq!(oid_name("1.2.840.10045.4.3.2"), "ecdsa-with-SHA256");
    assert_eq!(oid_name("1.2.840.10045.4.3.3"), "ecdsa-with-SHA384");
    assert_eq!(oid_name("1.2.840.10045.4.3.4"), "ecdsa-with-SHA512");
    assert_eq!(oid_name("1.2.840.113549.1.1.5"), "sha1WithRSAEncryption");
    assert_eq!(oid_name("1.2.840.113549.1.1.11"), "sha256WithRSAEncryption");
    assert_eq!(oid_name("1.2.840.113549.1.1.12"), "sha384WithRSAEncryption");
    assert_eq!(oid_name("1.2.840.113549.1.1.13"), "sha512WithRSAEncryption");
    assert_eq!(oid_name("1.2.3.4"), "1.2.3.4");
}

fn plain(extensions: Vec<Extension>, attributes: &[&str]) -> Certificate {
    Certificate {
        summary: Summary {
            subject: "CN=x".to_string(),
            issuer: "CN=y".to_string(),
            issuer_raw: vec![],
            serial: vec![1],
            not_before: "a".to_string(),
            not_after: "b".to_string(),
            expires: 0,
            key_algorithm: "1.3.101.112".to_string(),
            key_data: vec![],
            signature_algorithm: "1.3.101.112".to_string(),
        },
        key_size: 0,
        alt_names: vec![],
        extensions,
        subject_attributes: attributes.iter().map(|s| s.to_string()).collect(),
    }
}

#[test]
fn validation_levels() {
    let level = |policies: &[&[&str]], attributes: &[&str]| {
        let extensions = policies
            .iter()
            .map(|p| Extension::CertificatePolicies(p.iter().map(|s| s.to_string()).collect()))
            .collect();
        cert::classify_validation(&plain(extensions, attributes))
    };
    assert_eq!(level(&[&["2.23.140.1.1"]], &[]), "EV");
    assert_eq!(level(&[&["2.23.140.1.2.1"]], &["2.5.4.10"]), "DV");
    assert_eq!(level(&[&["2.23.140.1.2.2"]], &[]), "OV");
    assert_eq!(level(&[&["2.23.140.1.2.3"]], &[]), "IV");
    assert_eq!(level(&[&["1.2.3", "2.23.140.1.2.2", "2.23.140.1.1"]], &[]), "OV");
    assert_eq!(level(&[&["1.2.3"], &["2.23.140.1.1"]], &[]), "EV");
    assert_eq!(level(&[&["1.2.3"]], &["2.5.4.3", "2.5.4.10"]), "OV");
    assert_eq!(level(&[], &["2.5.4.3"]), "DV");
}

#[test]
fn alternative_names_of_other_kinds_are_left_out() {
    let names = vec![
        AltName::Other,
        AltName::Ip(vec![]),
        AltName::Dns("a".to_string()),
        AltName::Ip(vec![255]),
    ];
    assert_eq!(sans(&names), ["[]", "a", "[255]"]);
}

#[test]
fn unknown_key_sizes_are_left_out() {
    let info = cert::describe(&plain(vec![], &[]), 3, 0);
    assert_eq!(info.key_bits, None);
    assert!(!info.weak_key);
    assert_eq!(info.chain_depth, 3);
    assert_eq!(info.key_algorithm, "Ed25519");
}

#[test]
fn revocation_query_for_a_chain() {
    let query = ocsp::query(&[leaf(), issuer()]).unwrap();
    let body = ocsp::encode_request(
        &sha1(&issuer_name()),
        &sha1(&rsa_bits(128)),
        &[0x00, 0x91, 0x02],
    );
    match query {
        Query::Ask { scheme, host, port, request } => {
            assert_eq!(scheme, Scheme::Http);
            assert_eq!(host, "ocsp.example");
            assert_eq!(port, 8080);
            let head = format!(
                "POST /q HTTP/1.1\r\nHost: ocsp.example\r\nUser-Agent: russl/0.1\r\nConnection: close\r\nContent-Type: application/ocsp-request\r\nAccept: application/ocsp-response\r\nContent-Length: {}\r\n\r\n",
                body.len()
            );
            assert_eq!(request, [head.as_bytes(), &body].concat());
        }
        other => panic!("unexpected: {other:?}"),
    }
}

#[test]
fn revocation_queries_that_need_no_responder() {
    match ocsp::query(&[leaf()]).unwrap() {
        Query::Settled(s) => assert_eq!(s, "No issuer certificate in chain"),
        other => panic!("unexpected: {other:?}"),
    }
    match ocsp::query(&[issuer(), issuer()]).unwrap() {
        Query::Settled(s) => assert_eq!(s, "No OCSP responder in certificate"),
        other => panic!("unexpected: {other:?}"),
    }
    assert!(matches!(ocsp::query(&[leaf(), vec![0]]), Err(ScanError::CertParse(_))));
    assert!(matches!(ocsp::query(&[vec![0], issuer()]), Err(ScanError::CertParse(_))));
}

#[test]
fn revocation_query_with_an_unsupported_url() {
    let entry = AccessDescription {
        method: "1.3.6.1.5.5.7.48.1".to_string(),
        uri: Some("ldap://x".to_string()),
    };
    let c = plain(vec![Extension::Other, Extension::AuthorityInfoAccess(vec![entry])], &[]);
    assert_eq!(ocsp::ocsp_url(&c).as_deref(), Some("ldap://x"));
    match ocsp::query_certificates(&c, &c) {
        Err(ScanError::Http(s)) => assert_eq!(s, "unsupported OCSP URL: ldap://x"),
        other => panic!("unexpected: {other:?}"),
    }
}

#[test]
fn sni_subjects_come_from_the_certificates() {
    let b = classify_sni("example.com", Some(&leaf()), &NoSni::Leaf(issuer()));
    assert_eq!(b.outcome, "different-certificate");
    assert_eq!(b.with_sni_subject.as_deref(), Some("O=Example Org, CN=example.com"));
    assert_eq!(b.without_sni_subject.as_deref(), Some("CN=Example CA"));
}

fn opts(all: bool) -> ScanOpts {
    ScanOpts::from_flags(false, false, false, false, false, all, 10)
}

fn target() -> Target {
    Target { host: "example.com".to_string(), port: 8443 }
}

fn rows() -> Vec<ProtocolResult> {
    vec![ProtocolResult {
        version: "TLS 1.0".to_string(),
        supported: true,
        negotiated_cipher: None,
        negotiated_group: Some("X25519".to_string()),
    }]
}

#[test]
fn a_full_scan_runs_in_order() {
    let opts = opts(true);
    let mut scan = Scan::new();
    assert_eq!(scan.next_action(&opts), Action::Handshake);
    scan = scan.record(Event::Handshake(Ok(vec![leaf(), issuer()]), START)).unwrap();
    assert_eq!(scan.chain.len(), 2);
    assert_eq!(scan.next_action(&opts), Action::Revocation);
    scan = scan.record(Event::Revocation(Err(ScanError::Timeout))).unwrap();
    assert_eq!(scan.next_action(&opts), Action::Entries);
    scan = scan.record(Event::Entries(Err(ScanError::Timeout))).unwrap();
    assert_eq!(scan.next_action(&opts), Action::Protocols);
    scan = scan.record(Event::Protocols(Ok(rows()))).unwrap();
    assert_eq!(scan.next_action(&opts), Action::Ciphers);
    scan = scan.record(Event::Ciphers(Ok(vec![]))).unwrap();
    assert_eq!(scan.next_action(&opts), Action::Connection);
    scan = scan.record(Event::Connection(Err(ScanError::Timeout))).unwrap();
    assert_eq!(scan.next_action(&opts), Action::Report);
    let result = run_scan(&target(), &opts, scan).unwrap();
    assert_eq!(result.host, "example.com");
    assert_eq!(result.port, 8443);
    assert_eq!(result.certificate.ocsp_status.as_deref(), Some("Check failed: Timeout"));
    assert_eq!(result.certificate.ct_log_entries, None);
    assert_eq!(result.protocols.len(), 1);
    assert_eq!(result.vulnerabilities.len(), 4);
    assert!(result.vulnerabilities[1].vulnerable);
    assert!(result.connection.is_none());
}

#[test]
fn a_plain_scan_makes_two_probes() {
    let opts = opts(false);
    let scan = Scan::new().record(Event::Handshake(Ok(vec![leaf()]), START)).unwrap();
    assert_eq!(scan.next_action(&opts), Action::Protocols);
    assert!(run_scan(&target(), &opts, Scan::new()).is_none());
    let scan = scan.record(Event::Protocols(Ok(rows()))).unwrap();
    assert_eq!(scan.next_action(&opts), Action::Report);
    let result = run_scan(&target(), &opts, scan).unwrap();
    assert!(result.cipher_suites.is_empty());
    assert!(result.vulnerabilities.is_empty());
    assert!(result.connection.is_none());
    assert_eq!(result.certificate.ocsp_status, None);
}

#[test]
fn fatal_events_end_a_scan() {
    let fatal = [
        Event::Handshake(Err(ScanError::Timeout), 0),
        Event::Protocols(Err(ScanError::Timeout)),
        Event::Ciphers(Err(ScanError::Timeout)),
    ];
    for event in fatal {
        assert!(matches!(Scan::new().record(event), Err(ScanError::Timeout)));
    }
    let empty = Scan::new().record(Event::Handshake(Ok(vec![]), 0));
    assert!(matches!(empty, Err(ScanError::CertParse(_))));
}

#[test]
fn advisory_events_before_a_certificate_change_nothing() {
    let scan = Scan::new().record(Event::Entries(Ok(3))).unwrap();
    assert!(!scan.entries_asked && scan.certificate.is_none());
    let scan = scan.record(Event::Revocation(Ok("Good".to_string()))).unwrap();
    assert!(scan.certificate.is_none());
}

#[test]
fn advisory_outcomes_reach_the_report() {
    let scan = Scan::new().record(Event::Handshake(Ok(vec![leaf()]), START)).unwrap();
    let scan = scan.record(Event::Revocation(Ok("Good".to_string()))).unwrap();
    let scan = scan.record(Event::Entries(Ok(12))).unwrap();
    let info = scan.certificate.unwrap();
    assert_eq!(info.ocsp_status.as_deref(), Some("Good"));
    assert_eq!(info.ct_log_entries, Some(12));
    assert_eq!(info.subject, "O=Example Org, CN=example.com");
}

#[test]
fn certificate_table_rows() {
    let info = cert::inspect(&[issuer()], START).unwrap();
    let rows = pretty::certificate_rows(&info);
    assert_eq!(rows.len(), 12);
    assert_eq!(rows[0], ["Subject", "CN=Example CA"]);
    assert_eq!(rows[4], ["Days Remaining", "366"]);
    assert_eq!(rows[5], ["Expired", "false"]);
    assert_eq!(rows[7], ["Key Size", "1024 bits (WEAK)"]);
    assert_eq!(rows[8], ["Validation", "DV"]);
    assert_eq!(rows[11], ["SANs", "ca.example"]);
    let mut more = cert::inspect(&[leaf()], END + 3 * 86_400).unwrap();
    more.ocsp_status = Some("Good".to_string());
    more.ct_log_entries = Some(7);
    let rows = pretty::certificate_rows(&more);
    assert_eq!(rows.len(), 14);
    assert_eq!(rows[4], ["Days Remaining", "-3"]);
    assert_eq!(rows[5], ["Expired", "true"]);
    assert_eq!(rows[7], ["Key Size", "2048 bits"]);
    assert_eq!(rows[11], ["SANs", "example.com, www.example.com, [192, 0, 2, 1]"]);
    assert_eq!(rows[12], ["OCSP Status", "Good"]);
    assert_eq!(rows[13], ["CT Log Entries", "7"]);
    let unknown = cert::describe(&plain(vec![], &[]), 1, 0);
    assert_eq!(pretty::certificate_rows(&unknown)[7], ["Key Size", "unknown"]);
}

#[test]
fn report_of_a_scan() {
    let opts = ScanOpts::from_flags(true, true, false, false, false, false, 10);
    let scan = Scan::new().record(Event::Handshake(Ok(vec![issuer()]), START)).unwrap();
    let scan = scan.record(Event::Protocols(Ok(rows()))).unwrap();
    let suites = russl::scanner::ciphers::enumerate(&[Some(true), None, None, None, None, None]);
    let scan = scan.record(Event::Ciphers(Ok(suites))).unwrap();
    let result = run_scan(&target(), &opts, scan).unwrap();
    let text = pretty::print(&result);
    let line = "═══════════════════════════════════════════";
    assert!(text.starts_with(&format!(
        "{line}\n  TLS Inspection Report: example.com:8443\n{line}\n\n📜 Certificate\n┌"
    )));
    let protocols = "🔒 Protocol Support\n\
┌──────────┬───────────┬───────────────────┬────────┐\n\
│ Protocol ┆ Supported ┆ Negotiated Cipher ┆ Group  │\n\
╞══════════╪═══════════╪═══════════════════╪════════╡\n\
│ TLS 1.0  ┆ ✅ Yes    ┆ —                 ┆ X25519 │\n\
└──────────┴───────────┴───────────────────┴────────┘\n\n";
    assert!(text.contains(protocols), "{text}");
    assert!(text.contains("🔐 Cipher Suites\n"));
    assert!(text.contains("│ TLS13_AES_256_GCM_SHA384 ┆ ✅       ┆ Strong   │\n"), "{text}");
    assert!(text.contains("\n\n⚠️  Vulnerability Checks\n"));
    assert!(text.contains("🔴 YES"));
    assert!(text.contains("🟢 No"));
    assert!(text.ends_with("┘\n\n"));
}

#[test]
fn report_without_optional_sections() {
    let scan = Scan::new().record(Event::Handshake(Ok(vec![issuer()]), START)).unwrap();
    let scan = scan.record(Event::Protocols(Ok(vec![]))).unwrap();
    let text = pretty::print(&run_scan(&target(), &opts(false), scan).unwrap());
    assert!(!text.contains("Cipher Suites"));
    assert!(!text.contains("Vulnerability"));
}

#[test]
fn days_never_grow() {
    let mut last = i64::MAX;
    for now in (-200_000..400_000).step_by(7_777) {
        let days = days_until(now, 100_000);
        assert!(days <= last);
        last = days;
    }
}

#[test]
fn a_certificate_expires_at_the_end_of_its_window() {
    let at = |now: i64| {
        let info = cert::inspect(&[leaf()], now).unwrap();
        (info.days_remaining, info.is_expired)
    };
    assert_eq!(at(END - 86_400), (1, false));
    assert_eq!(at(END - 1), (0, false));
    assert_eq!(at(END), (0, false));
    assert_eq!(at(END + 1), (0, true));
    assert_eq!(at(END + 86_399), (0, true));
    assert_eq!(at(END + 86_400), (-1, true));
}
